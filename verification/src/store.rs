//! The document store: the only process-wide mutable state. It maps each open
//! document identifier to the current snapshot of its text as lines of raw
//! bytes; open and change notifications replace a snapshot wholesale.

use crate::locate::lines_view;
use vstd::prelude::*;
use vstd::string::StringSliceAdditionalSpecFns;

verus! {

/// Byte value of the line feed.
pub const NL: u8 = 10;

/// Byte value of the carriage return.
pub const CR: u8 = 13;

/// A terminated line loses one trailing carriage return.
pub open spec fn strip_cr(line: Seq<u8>) -> Seq<u8> {
    if line.len() > 0 && line.last() == CR {
        line.drop_last()
    } else {
        line
    }
}

/// Index of the first line feed at or after `k`, or the length when none.
pub open spec fn find_nl_from(bytes: Seq<u8>, k: int) -> int
    decreases bytes.len() - k,
{
    if k < 0 || k >= bytes.len() {
        bytes.len() as int
    } else if bytes[k] == NL {
        k
    } else {
        find_nl_from(bytes, k + 1)
    }
}

proof fn lemma_find_nl_from_range(bytes: Seq<u8>, k: int)
    requires
        0 <= k <= bytes.len(),
    ensures
        k <= find_nl_from(bytes, k) <= bytes.len(),
    decreases bytes.len() - k,
{
    if k < bytes.len() && bytes[k] != NL {
        lemma_find_nl_from_range(bytes, k + 1);
    }
}

/// The lines of `bytes` from position `p` on: split at each line feed, one
/// trailing carriage return stripped from a terminated line, and no final
/// empty line after a terminating line feed.
pub open spec fn lines_from(bytes: Seq<u8>, p: int) -> Seq<Seq<u8>>
    decreases bytes.len() - p
        via lines_from_decreases
{
    if p < 0 || p >= bytes.len() {
        Seq::empty()
    } else {
        let k = find_nl_from(bytes, p);
        if k == bytes.len() {
            seq![bytes.subrange(p, k)]
        } else {
            seq![strip_cr(bytes.subrange(p, k))] + lines_from(bytes, k + 1)
        }
    }
}

#[via_fn]
proof fn lines_from_decreases(bytes: Seq<u8>, p: int) {
    if 0 <= p < bytes.len() {
        lemma_find_nl_from_range(bytes, p);
    }
}

/// How a whole text is split into stored lines.
pub open spec fn lines_of(bytes: Seq<u8>) -> Seq<Seq<u8>> {
    lines_from(bytes, 0)
}

/// Copy `bytes[lo .. hi]` into a fresh vector.
fn copy_range(bytes: &[u8], lo: usize, hi: usize) -> (r: Vec<u8>)
    requires
        lo <= hi <= bytes@.len(),
    ensures
        r@ == bytes@.subrange(lo as int, hi as int),
{
    let mut r: Vec<u8> = Vec::new();
    let mut k: usize = lo;
    proof {
        assert(r@ =~= bytes@.subrange(lo as int, lo as int));
    }
    while k < hi
        invariant
            lo <= k <= hi <= bytes@.len(),
            r@ == bytes@.subrange(lo as int, k as int),
        decreases hi - k,
    {
        r.push(bytes[k]);
        k = k + 1;
        proof {
            assert(r@ =~= bytes@.subrange(lo as int, k as int));
        }
    }
    r
}

/// Split a text into stored lines, as the store keeps them.
pub fn split_lines(text: &str) -> (r: Vec<Vec<u8>>)
    ensures
        lines_view(r@) == lines_of(text.spec_bytes()),
{
    let bytes = text.as_bytes();
    let n = bytes.len();
    let mut res: Vec<Vec<u8>> = Vec::new();
    let mut p: usize = 0;
    proof {
        assert(lines_view(res@) + lines_from(bytes@, 0) =~= lines_from(bytes@, 0));
    }
    while p < n
        invariant
            p <= n,
            n == bytes@.len(),
            lines_of(bytes@) == lines_view(res@) + lines_from(bytes@, p as int),
        decreases n - p,
    {
        let mut q: usize = p;
        while q < n
            invariant
                p <= q <= n,
                n == bytes@.len(),
                find_nl_from(bytes@, p as int) == find_nl_from(bytes@, q as int),
            ensures
                p <= q <= n,
                find_nl_from(bytes@, p as int) == q as int,
            decreases n - q,
        {
            if bytes[q] == NL {
                proof {
                    assert(find_nl_from(bytes@, q as int) == q as int);
                }
                break ;
            }
            proof {
                assert(find_nl_from(bytes@, q as int) == find_nl_from(bytes@, q as int + 1));
            }
            q = q + 1;
        }
        let terminated = q < n;
        let stop = if terminated && q > p && bytes[q - 1] == CR {
            q - 1
        } else {
            q
        };
        let line = copy_range(bytes, p, stop);
        proof {
            if terminated {
                assert(line@ =~= strip_cr(bytes@.subrange(p as int, q as int)));
            }
        }
        let ghost res_before = res@;
        res.push(line);
        proof {
            assert(lines_view(res@) =~= lines_view(res_before).push(line@));
            if terminated {
                assert(lines_from(bytes@, p as int) == seq![line@] + lines_from(
                    bytes@,
                    q as int + 1,
                ));
                assert(lines_view(res@) + lines_from(bytes@, q as int + 1) =~= lines_view(
                    res_before,
                ) + lines_from(bytes@, p as int));
            } else {
                assert(lines_from(bytes@, p as int) =~= seq![line@]);
                assert(lines_view(res@) + lines_from(bytes@, n as int) =~= lines_view(res_before)
                    + lines_from(bytes@, p as int));
            }
        }
        p = if terminated {
            q + 1
        } else {
            n
        };
    }
    proof {
        assert(lines_view(res@) =~= lines_view(res@) + lines_from(bytes@, n as int));
    }
    res
}

/// Per-document snapshot store, keyed by document identifier. An update
/// replaces the whole line list; a reader sees a full snapshot, never a
/// partial one.
pub struct DocumentStore {
    entries: Vec<(String, Vec<Vec<u8>>)>,
}

/// No two entries share a key, so the newest snapshot is the only one.
pub open spec fn unique_keys(entries: Seq<(String, Vec<Vec<u8>>)>) -> bool {
    forall|a: int, b: int|
        0 <= a < b < entries.len() ==> entries[a].0@ != entries[b].0@
}

/// The store as a map from identifier to line snapshot.
pub open spec fn map_of(entries: Seq<(String, Vec<Vec<u8>>)>) -> Map<Seq<char>, Seq<Seq<u8>>>
    decreases entries.len(),
{
    if entries.len() == 0 {
        Map::empty()
    } else {
        map_of(entries.drop_last()).insert(entries.last().0@, lines_view(entries.last().1@))
    }
}

proof fn lemma_map_of_contains(entries: Seq<(String, Vec<Vec<u8>>)>, key: Seq<char>)
    ensures
        map_of(entries).contains_key(key) <==> exists|t: int|
            0 <= t < entries.len() && entries[t].0@ == key,
    decreases entries.len(),
{
    if entries.len() > 0 {
        lemma_map_of_contains(entries.drop_last(), key);
        if entries.last().0@ == key {
            assert(entries[entries.len() - 1].0@ == key);
        } else {
            if map_of(entries).contains_key(key) {
                let t = choose|t: int|
                    0 <= t < entries.drop_last().len() && entries.drop_last()[t].0@ == key;
                assert(entries[t].0@ == key);
            }
            if exists|t: int| 0 <= t < entries.len() && entries[t].0@ == key {
                let t = choose|t: int| 0 <= t < entries.len() && entries[t].0@ == key;
                assert(entries.drop_last()[t].0@ == key);
            }
        }
    }
}

proof fn lemma_map_of_value(entries: Seq<(String, Vec<Vec<u8>>)>, idx: int)
    requires
        unique_keys(entries),
        0 <= idx < entries.len(),
    ensures
        map_of(entries).contains_key(entries[idx].0@),
        map_of(entries)[entries[idx].0@] == lines_view(entries[idx].1@),
    decreases entries.len(),
{
    if idx < entries.len() - 1 {
        assert(unique_keys(entries.drop_last())) by {
            assert(forall|a: int, b: int|
                0 <= a < b < entries.drop_last().len() ==> entries.drop_last()[a].0@
                    != entries.drop_last()[b].0@);
        }
        lemma_map_of_value(entries.drop_last(), idx);
        assert(entries.last().0@ != entries[idx].0@);
    }
}

proof fn lemma_map_of_remove(entries: Seq<(String, Vec<Vec<u8>>)>, idx: int)
    requires
        unique_keys(entries),
        0 <= idx < entries.len(),
    ensures
        map_of(entries.remove(idx)) == map_of(entries).remove(entries[idx].0@),
    decreases entries.len(),
{
    let key = entries[idx].0@;
    if idx == entries.len() - 1 {
        assert(entries.remove(idx) =~= entries.drop_last());
        lemma_map_of_contains(entries.drop_last(), key);
        assert(forall|t: int|
            0 <= t < entries.drop_last().len() ==> entries.drop_last()[t].0@ != key);
        assert(map_of(entries.drop_last()) =~= map_of(entries).remove(key));
    } else {
        assert(unique_keys(entries.drop_last())) by {
            assert(forall|a: int, b: int|
                0 <= a < b < entries.drop_last().len() ==> entries.drop_last()[a].0@
                    != entries.drop_last()[b].0@);
        }
        lemma_map_of_remove(entries.drop_last(), idx);
        assert(entries.remove(idx).drop_last() =~= entries.drop_last().remove(idx));
        assert(entries.remove(idx).last() == entries.last());
        assert(map_of(entries.remove(idx)) == map_of(entries.drop_last().remove(idx)).insert(
            entries.last().0@,
            lines_view(entries.last().1@),
        ));
        assert(entries.last().0@ != key);
        assert(map_of(entries.drop_last()).remove(key).insert(
            entries.last().0@,
            lines_view(entries.last().1@),
        ) =~= map_of(entries.drop_last()).insert(
            entries.last().0@,
            lines_view(entries.last().1@),
        ).remove(key));
    }
}

impl DocumentStore {
    /// All stored keys are distinct.
    pub closed spec fn wf(&self) -> bool {
        unique_keys(self.entries@)
    }

    /// An empty store.
    pub fn new() -> (s: DocumentStore)
        ensures
            s.wf(),
            s@ == Map::<Seq<char>, Seq<Seq<u8>>>::empty(),
    {
        DocumentStore { entries: Vec::new() }
    }

    /// Replace (or create) the snapshot stored for `uri`.
    pub fn put(&mut self, uri: String, lines: Vec<Vec<u8>>)
        requires
            old(self).wf(),
        ensures
            final(self).wf(),
            final(self)@ == old(self)@.insert(uri@, lines_view(lines@)),
    {
        let n = self.entries.len();
        let mut idx: usize = 0;
        while idx < n
            invariant
                idx <= n,
                n == self.entries@.len(),
                self.entries@ == old(self).entries@,
                old(self).wf(),
                forall|t: int| 0 <= t < idx ==> self.entries@[t].0@ != uri@,
            decreases n - idx,
        {
            if self.entries[idx].0 == uri {
                let ghost before = self.entries@;
                let _replaced = self.entries.remove(idx);
                self.entries.push((uri, lines));
                proof {
                    lemma_map_of_remove(before, idx as int);
                    assert(self.entries@.drop_last() =~= before.remove(idx as int));
                    assert(map_of(self.entries@) == map_of(before.remove(idx as int)).insert(
                        uri@,
                        lines_view(lines@),
                    ));
                    assert(map_of(self.entries@) =~= map_of(before).insert(
                        uri@,
                        lines_view(lines@),
                    ));
                    assert forall|a: int, b: int|
                        0 <= a < b < self.entries@.len() implies self.entries@[a].0@
                        != self.entries@[b].0@ by {
                        assert(forall|t: int|
                            0 <= t < before.remove(idx as int).len()
                                ==> before.remove(idx as int)[t].0@ != uri@);
                    }
                }
                return ;
            }
            idx = idx + 1;
        }
        let ghost before = self.entries@;
        self.entries.push((uri, lines));
        proof {
            assert(self.entries@.drop_last() =~= before);
            assert(map_of(self.entries@) == map_of(before).insert(uri@, lines_view(lines@)));
        }
    }

    /// The current snapshot for `uri`, or nothing when the document is unknown.
    pub fn get(&self, uri: &String) -> (r: Option<&Vec<Vec<u8>>>)
        requires
            self.wf(),
        ensures
            (match r {
                Some(d) => self@.contains_key(uri@) && lines_view(d@) == self@[uri@],
                None => !self@.contains_key(uri@),
            }),
    {
        let n = self.entries.len();
        let mut idx: usize = 0;
        while idx < n
            invariant
                idx <= n,
                n == self.entries@.len(),
                self.wf(),
                forall|t: int| 0 <= t < idx ==> self.entries@[t].0@ != uri@,
            decreases n - idx,
        {
            if self.entries[idx].0 == *uri {
                proof {
                    lemma_map_of_value(self.entries@, idx as int);
                }
                return Some(&self.entries[idx].1);
            }
            idx = idx + 1;
        }
        proof {
            lemma_map_of_contains(self.entries@, uri@);
        }
        None
    }

    /// Store the full replacement text for `uri`, split into lines.
    pub fn update_document(&mut self, uri: String, text: &str)
        requires
            old(self).wf(),
        ensures
            final(self).wf(),
            final(self)@ == old(self)@.insert(uri@, lines_of(text.spec_bytes())),
    {
        let lines = split_lines(text);
        self.put(uri, lines);
    }

    /// A document was opened with this full text.
    pub fn on_open(&mut self, uri: String, text: &str)
        requires
            old(self).wf(),
        ensures
            final(self).wf(),
            final(self)@ == old(self)@.insert(uri@, lines_of(text.spec_bytes())),
    {
        self.update_document(uri, text);
    }

    /// A document was changed: the whole text is replaced, never merged.
    pub fn on_change(&mut self, uri: String, text: &str)
        requires
            old(self).wf(),
        ensures
            final(self).wf(),
            final(self)@ == old(self)@.insert(uri@, lines_of(text.spec_bytes())),
    {
        self.update_document(uri, text);
    }
}

impl View for DocumentStore {
    type V = Map<Seq<char>, Seq<Seq<u8>>>;

    closed spec fn view(&self) -> Map<Seq<char>, Seq<Seq<u8>>> {
        map_of(self.entries@)
    }
}

} // verus!
