//! Tables of named extensions.
//!
//! An extension is a name that stands for a fixed 32-bit code, such as the
//! ancillary offsets that the Linux socket filter offers. The assembler is
//! handed the table to use; it never changes it.

use vstd::prelude::*;
use vstd::slice::slice_to_vec;
use vstd::string::StringSliceAdditionalSpecFns;
use vstd::utf8::is_ascii_chars_encode_utf8;
use crate::span::{text_is, Span};

verus! {

/// One entry of a table.
#[derive(Debug, Clone)]
struct Extension {
    name: Vec<u8>,
    code: u32,
}

/// A mapping from extension names to their codes. Names are compared byte
/// by byte.
#[derive(Debug, Clone)]
pub struct ExtensionTable {
    entries: Vec<Extension>,
}

/// The mapping that a list of entries stands for. Were a name to stand in
/// two entries, the later one would count.
spec fn table_of(entries: Seq<Extension>) -> Map<Seq<u8>, u32>
    decreases entries.len(),
{
    if entries.len() == 0 {
        Map::empty()
    } else {
        table_of(entries.drop_last()).insert(entries.last().name@, entries.last().code)
    }
}

/// Putting a new entry in the place of the last one of its name binds the
/// name anew and leaves every other name as it was.
proof fn lemma_replaced(before: Seq<Extension>, after: Seq<Extension>, at: int, upto: int)
    requires
        0 <= at < upto <= before.len(),
        after.len() == before.len(),
        after[at].name@ == before[at].name@,
        forall|j: int| 0 <= j < before.len() && j != at ==> after[j] == before[j],
        forall|j: int| at < j < before.len() ==> (#[trigger] before[j]).name@ != before[at].name@,
    ensures
        table_of(after.take(upto)) == table_of(before.take(upto)).insert(
            after[at].name@,
            after[at].code,
        ),
    decreases upto,
{
    let key = after[at].name@;
    assert(after.take(upto).drop_last() =~= after.take(upto - 1));
    assert(before.take(upto).drop_last() =~= before.take(upto - 1));
    if upto == at + 1 {
        assert(after.take(at) =~= before.take(at));
        let below = table_of(before.take(at));
        assert(below.insert(key, before[at].code).insert(key, after[at].code) =~= below.insert(
            key,
            after[at].code,
        ));
    } else {
        lemma_replaced(before, after, at, upto - 1);
        let below = table_of(before.take(upto - 1));
        let last = before[upto - 1];
        assert(below.insert(key, after[at].code).insert(last.name@, last.code) =~= below.insert(
            last.name@,
            last.code,
        ).insert(key, after[at].code));
    }
}

/// What a mapping holds for a name, if anything.
pub open spec fn lookup(table: Map<Seq<u8>, u32>, name: Seq<u8>) -> Option<u32> {
    if table.contains_key(name) {
        Some(table[name])
    } else {
        None
    }
}

impl View for ExtensionTable {
    type V = Map<Seq<u8>, u32>;

    closed spec fn view(&self) -> Map<Seq<u8>, u32> {
        table_of(self.entries@)
    }
}

impl Default for ExtensionTable {
    fn default() -> (r: ExtensionTable)
        ensures
            r@ == Map::<Seq<u8>, u32>::empty(),
    {
        ExtensionTable::new()
    }
}

impl ExtensionTable {
    /// A table without entries.
    pub fn new() -> (r: ExtensionTable)
        ensures
            r@ == Map::<Seq<u8>, u32>::empty(),
    {
        ExtensionTable { entries: Vec::new() }
    }

    /// Binds `name` to `code`, in place of what it was bound to before.
    pub fn insert(&mut self, name: &str, code: u32)
        ensures
            final(self)@ == old(self)@.insert(name.spec_bytes(), code),
    {
        let key = name.as_bytes();
        let entry = Extension { name: slice_to_vec(key), code };
        let ghost before = self.entries@;
        let mut i: usize = self.entries.len();
        while i > 0
            invariant
                i <= self.entries@.len(),
                self.entries@ == before,
                old(self).entries@ == before,
                key@ == name.spec_bytes(),
                entry.name@ == key@,
                entry.code == code,
                forall|j: int| i <= j < before.len() ==> (#[trigger] before[j]).name@ != key@,
            decreases i,
        {
            i -= 1;
            if bytes_equal(self.entries[i].name.as_slice(), key) {
                self.entries.set(i, entry);
                proof {
                    lemma_replaced(before, self.entries@, i as int, before.len() as int);
                    assert(self.entries@.take(before.len() as int) =~= self.entries@);
                    assert(before.take(before.len() as int) =~= before);
                }
                return ;
            }
        }
        self.entries.push(entry);
        assert(self.entries@.drop_last() =~= before);
    }

    /// The code that the bytes `name` are bound to.
    pub fn find(&self, name: &[u8]) -> (r: Option<u32>)
        ensures
            r == lookup(self@, name@),
    {
        let mut i: usize = self.entries.len();
        assert(self.entries@.take(i as int) =~= self.entries@);
        while i > 0
            invariant
                i <= self.entries@.len(),
                lookup(self@, name@) == lookup(table_of(self.entries@.take(i as int)), name@),
            decreases i,
        {
            i -= 1;
            assert(self.entries@.take(i + 1).drop_last() =~= self.entries@.take(i as int));
            if bytes_equal(self.entries[i].name.as_slice(), name) {
                return Some(self.entries[i].code);
            }
        }
        None
    }

    /// The code that `name` is bound to.
    pub fn get(&self, name: &str) -> (r: Option<u32>)
        ensures
            r == lookup(self@, name.spec_bytes()),
    {
        self.find(name.as_bytes())
    }

    /// The code that the text of `src` at `name` is bound to.
    pub fn find_text(&self, src: &[u8], name: Span) -> (r: Option<u32>)
        requires
            name.fits(src@.len()),
        ensures
            r == lookup(self@, name.text(src@)),
    {
        let mut i: usize = self.entries.len();
        assert(self.entries@.take(i as int) =~= self.entries@);
        while i > 0
            invariant
                i <= self.entries@.len(),
                name.fits(src@.len()),
                lookup(self@, name.text(src@)) == lookup(
                    table_of(self.entries@.take(i as int)),
                    name.text(src@),
                ),
            decreases i,
        {
            i -= 1;
            assert(self.entries@.take(i + 1).drop_last() =~= self.entries@.take(i as int));
            if text_is(src, name, self.entries[i].name.as_slice()) {
                return Some(self.entries[i].code);
            }
        }
        None
    }
}

/// Whether two byte strings are the same.
fn bytes_equal(a: &[u8], b: &[u8]) -> (r: bool)
    ensures
        r == (a@ == b@),
{
    if a.len() != b.len() {
        return false;
    }
    let mut i: usize = 0;
    while i < a.len()
        invariant
            a@.len() == b@.len(),
            i <= a@.len(),
            forall|j: int| 0 <= j < i ==> a@[j] == b@[j],
        decreases a@.len() - i,
    {
        if a[i] != b[i] {
            return false;
        }
        i += 1;
    }
    assert(a@ =~= b@);
    true
}

/// The base of the ancillary offsets of the Linux socket filter.
pub const SKF_AD_OFF: u32 = 0xFFFFF000;

/// The extensions of the Linux socket filter, by every name they go by.
pub open spec fn linux_table() -> Map<Seq<u8>, u32> {
    Map::<Seq<u8>, u32>::empty().insert("pto".spec_bytes(), 0xFFFFF000).insert(
        "proto".spec_bytes(),
        0xFFFFF000,
    ).insert("type".spec_bytes(), 0xFFFFF004).insert("poff".spec_bytes(), 0xFFFFF034).insert(
        "ifx".spec_bytes(),
        0xFFFFF008,
    ).insert("ifidx".spec_bytes(), 0xFFFFF008).insert("nla".spec_bytes(), 0xFFFFF00C).insert(
        "nlan".spec_bytes(),
        0xFFFFF010,
    ).insert("mark".spec_bytes(), 0xFFFFF014).insert("Q".spec_bytes(), 0xFFFFF018).insert(
        "que".spec_bytes(),
        0xFFFFF018,
    ).insert("queue".spec_bytes(), 0xFFFFF018).insert("hat".spec_bytes(), 0xFFFFF01C).insert(
        "hatype".spec_bytes(),
        0xFFFFF01C,
    ).insert("rxh".spec_bytes(), 0xFFFFF020).insert("rxhash".spec_bytes(), 0xFFFFF020).insert(
        "cpu".spec_bytes(),
        0xFFFFF024,
    ).insert("vlant".spec_bytes(), 0xFFFFF02C).insert("vlan_tci".spec_bytes(), 0xFFFFF02C).insert(
        "vlanp".spec_bytes(),
        0xFFFFF030,
    ).insert("vlan_pr".spec_bytes(), 0xFFFFF030).insert(
        "vlan_avail".spec_bytes(),
        0xFFFFF030,
    ).insert("vlan_tpid".spec_bytes(), 0xFFFFF03C).insert("rand".spec_bytes(), 0xFFFFF038)
}

/// What the Linux table holds for each of its names.
pub proof fn linux_table_codes()
    ensures
        lookup(linux_table(), "pto".spec_bytes()) == Some(0xFFFFF000u32),
        lookup(linux_table(), "proto".spec_bytes()) == Some(0xFFFFF000u32),
        lookup(linux_table(), "type".spec_bytes()) == Some(0xFFFFF004u32),
        lookup(linux_table(), "poff".spec_bytes()) == Some(0xFFFFF034u32),
        lookup(linux_table(), "ifx".spec_bytes()) == Some(0xFFFFF008u32),
        lookup(linux_table(), "ifidx".spec_bytes()) == Some(0xFFFFF008u32),
        lookup(linux_table(), "nla".spec_bytes()) == Some(0xFFFFF00Cu32),
        lookup(linux_table(), "nlan".spec_bytes()) == Some(0xFFFFF010u32),
        lookup(linux_table(), "mark".spec_bytes()) == Some(0xFFFFF014u32),
        lookup(linux_table(), "Q".spec_bytes()) == Some(0xFFFFF018u32),
        lookup(linux_table(), "que".spec_bytes()) == Some(0xFFFFF018u32),
        lookup(linux_table(), "queue".spec_bytes()) == Some(0xFFFFF018u32),
        lookup(linux_table(), "hat".spec_bytes()) == Some(0xFFFFF01Cu32),
        lookup(linux_table(), "hatype".spec_bytes()) == Some(0xFFFFF01Cu32),
        lookup(linux_table(), "rxh".spec_bytes()) == Some(0xFFFFF020u32),
        lookup(linux_table(), "rxhash".spec_bytes()) == Some(0xFFFFF020u32),
        lookup(linux_table(), "cpu".spec_bytes()) == Some(0xFFFFF024u32),
        lookup(linux_table(), "vlant".spec_bytes()) == Some(0xFFFFF02Cu32),
        lookup(linux_table(), "vlan_tci".spec_bytes()) == Some(0xFFFFF02Cu32),
        lookup(linux_table(), "vlanp".spec_bytes()) == Some(0xFFFFF030u32),
        lookup(linux_table(), "vlan_pr".spec_bytes()) == Some(0xFFFFF030u32),
        lookup(linux_table(), "vlan_avail".spec_bytes()) == Some(0xFFFFF030u32),
        lookup(linux_table(), "vlan_tpid".spec_bytes()) == Some(0xFFFFF03Cu32),
        lookup(linux_table(), "rand".spec_bytes()) == Some(0xFFFFF038u32),
{
    reveal_strlit("pto");
    is_ascii_chars_encode_utf8("pto"@);
    reveal_strlit("proto");
    is_ascii_chars_encode_utf8("proto"@);
    reveal_strlit("type");
    is_ascii_chars_encode_utf8("type"@);
    reveal_strlit("poff");
    is_ascii_chars_encode_utf8("poff"@);
    reveal_strlit("ifx");
    is_ascii_chars_encode_utf8("ifx"@);
    reveal_strlit("ifidx");
    is_ascii_chars_encode_utf8("ifidx"@);
    reveal_strlit("nla");
    is_ascii_chars_encode_utf8("nla"@);
    reveal_strlit("nlan");
    is_ascii_chars_encode_utf8("nlan"@);
    reveal_strlit("mark");
    is_ascii_chars_encode_utf8("mark"@);
    reveal_strlit("Q");
    is_ascii_chars_encode_utf8("Q"@);
    reveal_strlit("que");
    is_ascii_chars_encode_utf8("que"@);
    reveal_strlit("queue");
    is_ascii_chars_encode_utf8("queue"@);
    reveal_strlit("hat");
    is_ascii_chars_encode_utf8("hat"@);
    reveal_strlit("hatype");
    is_ascii_chars_encode_utf8("hatype"@);
    reveal_strlit("rxh");
    is_ascii_chars_encode_utf8("rxh"@);
    reveal_strlit("rxhash");
    is_ascii_chars_encode_utf8("rxhash"@);
    reveal_strlit("cpu");
    is_ascii_chars_encode_utf8("cpu"@);
    reveal_strlit("vlant");
    is_ascii_chars_encode_utf8("vlant"@);
    reveal_strlit("vlan_tci");
    is_ascii_chars_encode_utf8("vlan_tci"@);
    reveal_strlit("vlanp");
    is_ascii_chars_encode_utf8("vlanp"@);
    reveal_strlit("vlan_pr");
    is_ascii_chars_encode_utf8("vlan_pr"@);
    reveal_strlit("vlan_avail");
    is_ascii_chars_encode_utf8("vlan_avail"@);
    reveal_strlit("vlan_tpid");
    is_ascii_chars_encode_utf8("vlan_tpid"@);
    reveal_strlit("rand");
    is_ascii_chars_encode_utf8("rand"@);
    assert("vlant"@[4] == 't' && "vlanp"@[4] == 'p');
}

/// The table of the Linux socket filter's extensions.
pub fn linux() -> (r: ExtensionTable)
    ensures
        r@ == linux_table(),
{
    let mut extensions = ExtensionTable::new();
    extensions.insert("pto", SKF_AD_OFF + 0);  // SKF_AD_PROTOCOL
    extensions.insert("proto", SKF_AD_OFF + 0);  // SKF_AD_PROTOCOL
    extensions.insert("type", SKF_AD_OFF + 4);  // SKF_AD_PKTTYPE
    extensions.insert("poff", SKF_AD_OFF + 52);  // SKF_AD_PAY_OFFSET
    extensions.insert("ifx", SKF_AD_OFF + 8);  // SKF_AD_IFINDEX
    extensions.insert("ifidx", SKF_AD_OFF + 8);  // SKF_AD_IFINDEX
    extensions.insert("nla", SKF_AD_OFF + 12);  // SKF_AD_NLATTR
    extensions.insert("nlan", SKF_AD_OFF + 16);  // SKF_AD_NLATTR_NEST
    extensions.insert("mark", SKF_AD_OFF + 20);  // SKF_AD_MARK
    extensions.insert("Q", SKF_AD_OFF + 24);  // SKF_AD_QUEUE
    extensions.insert("que", SKF_AD_OFF + 24);  // SKF_AD_QUEUE
    extensions.insert("queue", SKF_AD_OFF + 24);  // SKF_AD_QUEUE
    extensions.insert("hat", SKF_AD_OFF + 28);  // SKF_AD_HATYPE
    extensions.insert("hatype", SKF_AD_OFF + 28);  // SKF_AD_HATYPE
    extensions.insert("rxh", SKF_AD_OFF + 32);  // SKF_AD_RXHASH
    extensions.insert("rxhash", SKF_AD_OFF + 32);  // SKF_AD_RXHASH
    extensions.insert("cpu", SKF_AD_OFF + 36);  // SKF_AD_CPU
    extensions.insert("vlant", SKF_AD_OFF + 44);  // SKF_AD_VLAN_TAG
    extensions.insert("vlan_tci", SKF_AD_OFF + 44);  // SKF_AD_VLAN_TAG
    extensions.insert("vlanp", SKF_AD_OFF + 48);  // SKF_AD_VLAN_TAG_PRESENT
    extensions.insert("vlan_pr", SKF_AD_OFF + 48);  // SKF_AD_VLAN_TAG_PRESENT
    extensions.insert("vlan_avail", SKF_AD_OFF + 48);  // SKF_AD_VLAN_TAG_PRESENT
    extensions.insert("vlan_tpid", SKF_AD_OFF + 60);  // SKF_AD_VLAN_TPID
    extensions.insert("rand", SKF_AD_OFF + 56);  // SKF_AD_RANDOM
    extensions
}

} // verus!
