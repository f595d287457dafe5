//! A string interner: one shared allocation for each distinct text.
//!
//! Entities repeat the same few strings (names, source locations, rendered
//! identifiers) many times over. The interner hands out a shared handle for
//! each text and keeps one handle itself, so that equal texts share storage.
//! A sweep drops the texts that nobody else holds any more.

use crate::text::str_eq;
use std::collections::HashMap;
use std::rc::Rc;
use vstd::prelude::*;
use vstd::std_specs::hash::group_hash_axioms;

verus! {

broadcast use group_hash_axioms;

/// A shared, immutable string.
///
/// Two handles are equal in contracts when their texts are equal.
#[derive(Debug)]
pub struct InternedStr(Rc<String>);

impl View for InternedStr {
    type V = Seq<char>;

    closed spec fn view(&self) -> Seq<char> {
        (*self.0)@
    }
}

/// `Rc::clone` on an interned string: a new handle to the same allocation.
/// The contract claims that the new handle reads the same string.
#[verifier::external_body]
fn share(handle: &Rc<String>) -> (shared: Rc<String>)
    ensures
        *shared == **handle,
{
    Rc::clone(handle)
}

/// `Rc::strong_count`: the number of handles to the allocation that are alive
/// at the time of the call. The number depends on who else holds the string,
/// so the contract claims nothing of it.
#[verifier::external_body]
fn strong_count(handle: &Rc<String>) -> usize {
    Rc::strong_count(handle)
}

/// `Vec::capacity`: the number of slots that the vector has allocated. The
/// number is the allocator's choice; the contract claims only what the
/// documentation of `Vec` guarantees, that it is at least the length.
#[verifier::external_body]
fn capacity(strings: &Vec<InternedStr>) -> (slots: usize)
    ensures
        slots >= strings@.len(),
{
    strings.capacity()
}

/// `Vec::shrink_to_fit`: gives unused capacity back to the allocator. The
/// contract claims that the elements stay as they are.
#[verifier::external_body]
fn shrink_to_fit(strings: &mut Vec<InternedStr>)
    ensures
        final(strings)@ == old(strings)@,
{
    strings.shrink_to_fit()
}

impl Clone for InternedStr {
    /// Another handle to the same string.
    fn clone(&self) -> (handle: Self)
        ensures
            handle@ == self@,
    {
        InternedStr(share(&self.0))
    }
}

impl InternedStr {
    /// The text of the string.
    pub fn as_str(&self) -> (text: &str)
        ensures
            text@ == self@,
    {
        self.0.as_str()
    }

    /// Whether the two strings have the same text.
    pub fn same_text(&self, other: &InternedStr) -> (same: bool)
        ensures
            same == (self@ == other@),
    {
        *self.0 == *other.0
    }
}

/// No text occurs twice among `entries`.
pub open spec fn distinct(entries: Seq<Seq<char>>) -> bool {
    forall|i: int, j: int| 0 <= i < j < entries.len() ==> entries[i] != entries[j]
}

/// What a registry holds after `text` was asked of it: the same entries if
/// `text` was among them, else the entries followed by `text`.
pub open spec fn interned(entries: Seq<Seq<char>>, text: Seq<char>) -> Seq<Seq<char>> {
    if entries.contains(text) {
        entries
    } else {
        entries.push(text)
    }
}

/// What a registry holds after each of `texts` was asked of it, in order.
pub open spec fn interned_all(entries: Seq<Seq<char>>, texts: Seq<Seq<char>>) -> Seq<Seq<char>>
    decreases texts.len(),
{
    if texts.len() == 0 {
        entries
    } else {
        interned(interned_all(entries, texts.drop_last()), texts.last())
    }
}

/// What is left of `entries` after a sweep that found `holders[i]` live
/// handles for the `i`-th entry: the entries held by somebody besides the
/// registry, in their old order.
pub open spec fn swept(entries: Seq<Seq<char>>, holders: Seq<usize>) -> Seq<Seq<char>>
    decreases entries.len(),
{
    if entries.len() == 0 {
        Seq::empty()
    } else if holders.last() > 1 {
        swept(entries.drop_last(), holders.drop_last()).push(entries.last())
    } else {
        swept(entries.drop_last(), holders.drop_last())
    }
}

/// Unused capacity, in bytes, from which a sweep gives storage back.
pub const SHRINK_THRESHOLD_BYTES: u128 = 4096;

/// Whether a sweep gives unused storage back: it removed something, and the
/// `free_slots` unused slots of `slot_bytes` bytes each amount to
/// [`SHRINK_THRESHOLD_BYTES`] or more.
pub open spec fn shrinks(removed: nat, free_slots: nat, slot_bytes: nat) -> bool {
    removed > 0 && free_slots * slot_bytes >= SHRINK_THRESHOLD_BYTES
}

/// Decides [`shrinks`].
pub fn should_shrink(removed: usize, free_slots: usize, slot_bytes: usize) -> (shrink: bool)
    ensures
        shrink == shrinks(removed as nat, free_slots as nat, slot_bytes as nat),
{
    assert(free_slots * slot_bytes <= u64::MAX * u64::MAX) by (nonlinear_arith)
        requires
            free_slots <= u64::MAX,
            slot_bytes <= u64::MAX,
    ;
    removed > 0 && free_slots as u128 * slot_bytes as u128 >= SHRINK_THRESHOLD_BYTES
}

/// Every entry left by a sweep was an entry before it.
pub proof fn lemma_swept_subset(entries: Seq<Seq<char>>, holders: Seq<usize>, text: Seq<char>)
    requires
        entries.len() == holders.len(),
        swept(entries, holders).contains(text),
    ensures
        exists|i: int| 0 <= i < entries.len() && entries[i] == text && holders[i] > 1,
    decreases entries.len(),
{
    if entries.len() > 0 {
        let rest = swept(entries.drop_last(), holders.drop_last());
        if holders.last() > 1 && entries.last() == text {
            assert(entries[entries.len() - 1] == text);
        } else {
            if holders.last() > 1 {
                let k = choose|k: int| 0 <= k < rest.push(entries.last()).len() && rest.push(
                    entries.last(),
                )[k] == text;
                assert(rest[k] == text);
            }
            assert(rest.contains(text));
            lemma_swept_subset(entries.drop_last(), holders.drop_last(), text);
            let i = choose|i: int|
                0 <= i < entries.drop_last().len() && entries.drop_last()[i] == text
                    && holders.drop_last()[i] > 1;
            assert(entries[i] == text && holders[i] > 1);
        }
    }
}

/// A sweep keeps the entries distinct.
pub proof fn lemma_swept_distinct(entries: Seq<Seq<char>>, holders: Seq<usize>)
    requires
        entries.len() == holders.len(),
        distinct(entries),
    ensures
        distinct(swept(entries, holders)),
    decreases entries.len(),
{
    if entries.len() > 0 {
        let rest = swept(entries.drop_last(), holders.drop_last());
        lemma_swept_distinct(entries.drop_last(), holders.drop_last());
        if holders.last() > 1 {
            if rest.contains(entries.last()) {
                lemma_swept_subset(entries.drop_last(), holders.drop_last(), entries.last());
                let i = choose|i: int|
                    0 <= i < entries.drop_last().len() && entries.drop_last()[i] == entries.last()
                        && holders.drop_last()[i] > 1;
                assert(entries[i] == entries[entries.len() - 1]);
            }
            let kept = rest.push(entries.last());
            assert forall|i: int, j: int| 0 <= i < j < kept.len() implies kept[i] != kept[j] by {
                if j == rest.len() {
                    assert(rest.contains(rest[i]));
                }
            }
        }
    }
}

/// A sweep keeps every entry that somebody besides the registry holds.
pub proof fn lemma_swept_keeps_held(entries: Seq<Seq<char>>, holders: Seq<usize>, i: int)
    requires
        entries.len() == holders.len(),
        0 <= i < entries.len(),
        holders[i] > 1,
    ensures
        swept(entries, holders).contains(entries[i]),
    decreases entries.len(),
{
    let rest = swept(entries.drop_last(), holders.drop_last());
    if i == entries.len() - 1 {
        assert(rest.push(entries.last())[rest.len() as int] == entries[i]);
    } else {
        lemma_swept_keeps_held(entries.drop_last(), holders.drop_last(), i);
        let k = choose|k: int| 0 <= k < rest.len() && rest[k] == entries.drop_last()[i];
        if holders.last() > 1 {
            assert(rest.push(entries.last())[k] == entries[i]);
        }
    }
}

/// Two requests for the same text, with no sweep between them, are served
/// from one entry: the second finds the text in place and leaves the registry
/// as the first left it.
pub proof fn lemma_interned_twice(entries: Seq<Seq<char>>, text: Seq<char>)
    ensures
        interned(entries, text).contains(text),
        interned(interned(entries, text), text) == interned(entries, text),
{
    if !entries.contains(text) {
        assert(entries.push(text)[entries.len() as int] == text);
    }
}

/// A text that nobody but the registry holds is gone after a sweep, and the
/// next request for it registers it anew, behind the entries that were kept.
pub proof fn lemma_swept_then_interned(
    entries: Seq<Seq<char>>,
    holders: Seq<usize>,
    text: Seq<char>,
)
    requires
        entries.len() == holders.len(),
        forall|i: int| 0 <= i < entries.len() && entries[i] == text ==> holders[i] <= 1,
    ensures
        !swept(entries, holders).contains(text),
        interned(swept(entries, holders), text) == swept(entries, holders).push(text),
{
    if swept(entries, holders).contains(text) {
        lemma_swept_subset(entries, holders, text);
    }
}

/// The texts of a sequence of handles.
spec fn texts(handles: Seq<InternedStr>) -> Seq<Seq<char>> {
    Seq::new(handles.len(), |i: int| handles[i]@)
}

/// The value that the hash of a text starts from.
pub const HASH_OFFSET: u64 = 0xcbf2_9ce4_8422_2325;

/// The factor by which the hash of a text grows with each byte.
pub const HASH_PRIME: u64 = 0x0000_0100_0000_01b3;

/// The hash `h` with the byte `b` mixed in.
pub open spec fn mixed(h: u64, b: u8) -> u64 {
    (h ^ (b as u64)).wrapping_mul(HASH_PRIME)
}

/// The hash of a string of bytes: each byte in turn is mixed into the hash
/// of those before it.
pub open spec fn hash_of_bytes(bytes: Seq<u8>) -> u64
    decreases bytes.len(),
{
    if bytes.len() == 0 {
        HASH_OFFSET
    } else {
        mixed(hash_of_bytes(bytes.drop_last()), bytes.last())
    }
}

/// The hash of a text: that of its bytes in UTF-8.
pub open spec fn hash_of(text: Seq<char>) -> u64 {
    hash_of_bytes(vstd::utf8::encode_utf8(text))
}

/// Computes [`hash_of`].
pub fn hash(text: &str) -> (h: u64)
    ensures
        h == hash_of(text@),
{
    let bytes = text.as_bytes();
    let mut h: u64 = HASH_OFFSET;
    let mut i: usize = 0;
    while i < bytes.len()
        invariant
            i <= bytes@.len(),
            h == hash_of_bytes(bytes@.take(i as int)),
        decreases bytes@.len() - i,
    {
        proof {
            assert(bytes@.take(i + 1).drop_last() =~= bytes@.take(i as int));
        }
        h = (h ^ (bytes[i] as u64)).wrapping_mul(HASH_PRIME);
        i += 1;
    }
    proof {
        assert(bytes@.take(i as int) =~= bytes@);
    }
    h
}

/// Whether `index` finds every one of `handles`: under the hash of each
/// handle's text it lists the handle's position, and it lists no position
/// beyond the last handle.
spec fn finds(index: Map<u64, Vec<usize>>, handles: Seq<InternedStr>) -> bool {
    &&& forall|i: int|
        0 <= i < handles.len() ==> index.contains_key(hash_of(#[trigger] handles[i]@))
            && index[hash_of(handles[i]@)]@.contains(i as usize)
    &&& forall|h: u64, k: int|
        index.contains_key(h) && 0 <= k < index[h]@.len() ==> (#[trigger] index[h]@[k])
            < handles.len()
}

/// The registry of interned strings.
///
/// It holds one handle for each text, in the order in which the texts were
/// first seen, and no text twice. An index by the hash of the text finds
/// the handle of a text without a look at the others.
pub struct Strings {
    strings: Vec<InternedStr>,
    index: HashMap<u64, Vec<usize>>,
}

impl Strings {
    #[verifier::type_invariant]
    spec fn well_formed(&self) -> bool {
        &&& distinct(texts(self.strings@))
        &&& finds(self.index@, self.strings@)
    }

    /// The texts in the registry, in the order in which they were first seen.
    pub closed spec fn entries(&self) -> Seq<Seq<char>> {
        texts(self.strings@)
    }

    /// An empty registry.
    pub fn new() -> (strings: Strings)
        ensures
            strings.entries() == Seq::<Seq<char>>::empty(),
    {
        let handles: Vec<InternedStr> = Vec::new();
        assert(texts(handles@) =~= Seq::<Seq<char>>::empty());
        Strings { strings: handles, index: HashMap::new() }
    }

    /// The number of texts in the registry.
    pub fn len(&self) -> (n: usize)
        ensures
            n == self.entries().len(),
    {
        self.strings.len()
    }

    /// The handle for `string`: the one in the registry if the text is
    /// there, else a new one, which the registry keeps.
    pub fn string_ref(&mut self, string: &str) -> (handle: InternedStr)
        ensures
            handle@ == string@,
            final(self).entries() == interned(old(self).entries(), string@),
            distinct(final(self).entries()),
    {
        proof {
            use_type_invariant(&*self);
        }
        match self.position(string) {
            Some(i) => self.strings[i].clone(),
            None => self.insert(string.to_owned()),
        }
    }

    /// The handle for `string`: the one in the registry if the text is
    /// there, else a new one made of `string`, which the registry keeps.
    pub fn string(&mut self, string: String) -> (handle: InternedStr)
        ensures
            handle@ == string@,
            final(self).entries() == interned(old(self).entries(), string@),
            distinct(final(self).entries()),
    {
        proof {
            use_type_invariant(&*self);
        }
        match self.position(string.as_str()) {
            Some(i) => self.strings[i].clone(),
            None => self.insert(string),
        }
    }

    /// Lists the position `at` in `index` under the hash `h`.
    fn list(index: &mut HashMap<u64, Vec<usize>>, h: u64, at: usize)
        ensures
            final(index)@.dom() == old(index)@.dom().insert(h),
            final(index)@[h]@ == if old(index)@.contains_key(h) {
                old(index)@[h]@.push(at)
            } else {
                Seq::<usize>::empty().push(at)
            },
            forall|other: u64|
                other != h && old(index)@.contains_key(other) ==> final(index)@[other] == old(
                    index,
                )@[other],
    {
        let mut bucket = match index.remove(&h) {
            Some(bucket) => bucket,
            None => Vec::new(),
        };
        bucket.push(at);
        index.insert(h, bucket);
        assert(index@.dom() =~= old(index)@.dom().insert(h));
    }

    /// Registers a text that the registry does not hold yet, and returns the
    /// handle made for it.
    pub fn insert(&mut self, string: String) -> (handle: InternedStr)
        requires
            !old(self).entries().contains(string@),
        ensures
            handle@ == string@,
            final(self).entries() == old(self).entries().push(string@),
            distinct(final(self).entries()),
    {
        let h = hash(string.as_str());
        let handle = InternedStr(Rc::new(string));
        let kept = handle.clone();
        let ghost before = self.entries();
        let mut taken = Strings::new();
        core::mem::swap(self, &mut taken);
        proof {
            use_type_invariant(&taken);
        }
        let Strings { mut strings, mut index } = taken;
        let ghost old_strings = strings@;
        let ghost old_index = index@;
        let at = strings.len();
        strings.push(kept);
        Self::list(&mut index, h, at);
        proof {
            let after = texts(strings@);
            assert(after =~= before.push(string@));
            assert forall|i: int, j: int| 0 <= i < j < after.len() implies after[i] != after[j] by {
                if j == before.len() {
                    assert(before.contains(before[i]));
                }
            }
            assert forall|i: int| 0 <= i < strings@.len() implies index@.contains_key(
                hash_of(#[trigger] strings@[i]@),
            ) && index@[hash_of(strings@[i]@)]@.contains(i as usize) by {
                let hi = hash_of(strings@[i]@);
                if i < old_strings.len() {
                    assert(strings@[i] == old_strings[i]);
                    assert(old_index.contains_key(hi));
                    let k = choose|k: int|
                        0 <= k < old_index[hi]@.len() && old_index[hi]@[k] == i as usize;
                    if hi == h {
                        assert(index@[hi]@[k] == i as usize);
                    } else {
                        assert(index@[hi]@[k] == i as usize);
                    }
                } else {
                    assert(hi == h);
                    assert(index@[h]@[index@[h]@.len() - 1] == at);
                }
            }
            assert forall|g: u64, k: int|
                index@.contains_key(g) && 0 <= k < index@[g]@.len() implies (#[trigger] index@[g]@[k])
                < strings@.len() by {
                if g == h {
                    if old_index.contains_key(h) && k < old_index[h]@.len() {
                        assert(old_index[h]@[k] < old_strings.len());
                    }
                } else {
                    assert(old_index.contains_key(g));
                    assert(old_index[g]@[k] < old_strings.len());
                }
            }
        }
        *self = Strings { strings, index };
        handle
    }

    /// The number of live handles to each entry, the registry's own included.
    fn holders(&self) -> (counts: Vec<usize>)
        ensures
            counts@.len() == self.entries().len(),
    {
        let mut counts: Vec<usize> = Vec::new();
        let mut i: usize = 0;
        while i < self.strings.len()
            invariant
                i <= self.strings@.len(),
                counts@.len() == i,
            decreases self.strings@.len() - i,
        {
            counts.push(strong_count(&self.strings[i].0));
            i += 1;
        }
        counts
    }

    /// An index that finds every one of `handles`.
    fn index_of(handles: &Vec<InternedStr>) -> (index: HashMap<u64, Vec<usize>>)
        ensures
            finds(index@, handles@),
    {
        let mut index: HashMap<u64, Vec<usize>> = HashMap::new();
        let mut i: usize = 0;
        while i < handles.len()
            invariant
                i <= handles@.len(),
                finds(index@, handles@.take(i as int)),
            decreases handles@.len() - i,
        {
            let ghost old_index = index@;
            let ghost so_far = handles@.take(i as int);
            let h = hash(handles[i].as_str());
            Self::list(&mut index, h, i);
            proof {
                let now = handles@.take(i + 1);
                assert forall|j: int| 0 <= j < now.len() implies index@.contains_key(
                    hash_of(#[trigger] now[j]@),
                ) && index@[hash_of(now[j]@)]@.contains(j as usize) by {
                    let hj = hash_of(now[j]@);
                    if j < i {
                        assert(now[j] == so_far[j]);
                        assert(old_index.contains_key(hj));
                        let k = choose|k: int|
                            0 <= k < old_index[hj]@.len() && old_index[hj]@[k] == j as usize;
                        assert(index@[hj]@[k] == j as usize);
                    } else {
                        assert(index@[h]@[index@[h]@.len() - 1] == i);
                    }
                }
                assert forall|g: u64, k: int|
                    index@.contains_key(g) && 0 <= k < index@[g]@.len() implies (
                    #[trigger] index@[g]@[k]) < now.len() by {
                    if g == h {
                        if old_index.contains_key(h) && k < old_index[h]@.len() {
                            assert(old_index[h]@[k] < so_far.len());
                        }
                    } else {
                        assert(old_index.contains_key(g));
                        assert(old_index[g]@[k] < so_far.len());
                    }
                }
            }
            i += 1;
        }
        proof {
            assert(handles@.take(i as int) =~= handles@);
        }
        index
    }

    /// Drops the entries that nobody but the registry holds, given the
    /// number of live handles to each entry: an entry stays if its count is
    /// above one. Returns how many entries were dropped.
    pub fn retain_counted(&mut self, holders: &Vec<usize>) -> (removed: usize)
        requires
            holders@.len() == old(self).entries().len(),
        ensures
            final(self).entries() == swept(old(self).entries(), holders@),
            removed == old(self).entries().len() - final(self).entries().len(),
            distinct(final(self).entries()),
    {
        proof {
            use_type_invariant(&*self);
        }
        let ghost before = self.entries();
        let mut kept: Vec<InternedStr> = Vec::new();
        let mut i: usize = 0;
        while i < self.strings.len()
            invariant
                i <= self.strings@.len(),
                before == self.entries(),
                holders@.len() == before.len(),
                kept@.len() <= i,
                texts(kept@) == swept(before.take(i as int), holders@.take(i as int)),
            decreases self.strings@.len() - i,
        {
            let ghost so_far = texts(kept@);
            proof {
                assert(before.take(i + 1).drop_last() =~= before.take(i as int));
                assert(holders@.take(i + 1).drop_last() =~= holders@.take(i as int));
            }
            if holders[i] > 1 {
                kept.push(self.strings[i].clone());
                assert(texts(kept@) =~= so_far.push(before[i as int]));
            }
            i += 1;
        }
        proof {
            assert(before.take(i as int) =~= before);
            assert(holders@.take(i as int) =~= holders@);
            lemma_swept_distinct(before, holders@);
        }
        let removed = self.strings.len() - kept.len();
        let index = Self::index_of(&kept);
        *self = Strings { strings: kept, index };
        removed
    }

    /// Drops the entries that nobody but the registry holds any more, and
    /// gives storage back where the sweep left enough of it unused.
    ///
    /// Who holds a string is not visible to the registry's contracts, so the
    /// entries left are those of [`swept`] for some count of holders per
    /// entry: the counts that the sweep found.
    pub fn retain_referenced(&mut self)
        ensures
            exists|holders: Seq<usize>|
                holders.len() == old(self).entries().len() && final(self).entries() == swept(
                    old(self).entries(),
                    holders,
                ),
            distinct(final(self).entries()),
    {
        let holders = self.holders();
        let removed = self.retain_counted(&holders);
        let len = self.strings.len();
        let free_slots = capacity(&self.strings) - len;
        if should_shrink(removed, free_slots, core::mem::size_of::<InternedStr>()) {
            let mut taken = Strings::new();
            core::mem::swap(self, &mut taken);
            proof {
                use_type_invariant(&taken);
            }
            let Strings { mut strings, index } = taken;
            shrink_to_fit(&mut strings);
            *self = Strings { strings, index };
        }
    }

    /// The position of `text` in the registry, if it is there.
    fn position(&self, text: &str) -> (found: Option<usize>)
        ensures
            match found {
                Some(i) => i < self.entries().len() && self.entries()[i as int] == text@,
                None => !self.entries().contains(text@),
            },
    {
        proof {
            use_type_invariant(self);
        }
        let h = hash(text);
        let bucket = match self.index.get(&h) {
            Some(bucket) => bucket,
            None => {
                proof {
                    if self.entries().contains(text@) {
                        let i = choose|i: int|
                            0 <= i < self.entries().len() && self.entries()[i] == text@;
                        assert(self.strings@[i]@ == text@);
                    }
                }
                return None;
            },
        };
        let n = self.strings.len();
        let mut k: usize = 0;
        while k < bucket.len()
            invariant
                k <= bucket@.len(),
                n == self.strings@.len(),
                finds(self.index@, self.strings@),
                self.index@.contains_key(h),
                bucket == self.index@[h],
                forall|j: int|
                    0 <= j < k ==> self.strings@[(#[trigger] bucket@[j]) as int]@ != text@,
            decreases bucket@.len() - k,
        {
            let at = bucket[k];
            assert(self.index@[h]@[k as int] < self.strings@.len());
            if str_eq(self.strings[at].as_str(), text) {
                return Some(at);
            }
            k += 1;
        }
        proof {
            if self.entries().contains(text@) {
                let i = choose|i: int| 0 <= i < self.entries().len() && self.entries()[i] == text@;
                assert(self.strings@[i]@ == text@);
                let at = i as usize;
                assert(at == i);
                assert(bucket@.contains(at));
                let j = choose|j: int| 0 <= j < bucket@.len() && bucket@[j] == at;
                assert(self.strings@[bucket@[j] as int]@ != text@);
            }
        }
        None
    }
}

impl Default for Strings {
    /// An empty registry.
    fn default() -> (strings: Strings)
        ensures
            strings.entries() == Seq::<Seq<char>>::empty(),
    {
        Strings::new()
    }
}

} // verus!
