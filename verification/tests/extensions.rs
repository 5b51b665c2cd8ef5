//! Extension tables.

use bpfasm::extensions::{linux, ExtensionTable, SKF_AD_OFF};

#[test]
fn empty_table_holds_nothing() {
    let table = ExtensionTable::new();
    assert_eq!(table.get("proto"), None);
    assert_eq!(table.get(""), None);
    assert_eq!(table.find(b"proto"), None);
}

#[test]
fn insert_binds_and_replaces() {
    let mut table = ExtensionTable::new();
    table.insert("one", 1);
    table.insert("two", 2);
    assert_eq!(table.get("one"), Some(1));
    assert_eq!(table.get("two"), Some(2));
    assert_eq!(table.get("On"), None);
    assert_eq!(table.get("one "), None);
    table.insert("one", 11);
    assert_eq!(table.get("one"), Some(11));
    assert_eq!(table.get("two"), Some(2));
    assert_eq!(table.find(b"two"), Some(2));
}

#[test]
fn lookup_inside_a_text() {
    let mut table = ExtensionTable::new();
    table.insert("rand", 56);
    let text = b"ld rand";
    assert_eq!(table.find_text(text, bpfasm::Span { start: 3, end: 7 }), Some(56));
    assert_eq!(table.find_text(text, bpfasm::Span { start: 3, end: 6 }), None);
    assert_eq!(table.find_text(text, bpfasm::Span { start: 0, end: 0 }), None);
}

#[test]
fn linux_offsets() {
    let table = linux();
    let expected: [(&str, u32); 24] = [
        ("pto", 0),
        ("proto", 0),
        ("type", 4),
        ("poff", 52),
        ("ifx", 8),
        ("ifidx", 8),
        ("nla", 12),
        ("nlan", 16),
        ("mark", 20),
        ("Q", 24),
        ("que", 24),
        ("queue", 24),
        ("hat", 28),
        ("hatype", 28),
        ("rxh", 32),
        ("rxhash", 32),
        ("cpu", 36),
        ("vlant", 44),
        ("vlan_tci", 44),
        ("vlanp", 48),
        ("vlan_pr", 48),
        ("vlan_avail", 48),
        ("vlan_tpid", 60),
        ("rand", 56),
    ];
    for (name, offset) in expected {
        assert_eq!(table.get(name), Some(0xFFFFF000 + offset), "{}", name);
    }
    assert_eq!(SKF_AD_OFF, 0xFFFFF000);
    assert_eq!(table.get("len"), None);
    assert_eq!(table.get("PROTO"), None);
}
