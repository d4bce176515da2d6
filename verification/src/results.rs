//! The result set: the process-wide collection of current results, with its
//! unique-path invariant, wholesale replacement, removal by path, and the
//! sorted publication.
//!
//! Removal by path is unconditional: whether the filesystem deletion of a
//! path succeeded or failed, the entry leaves the visible set. The law
//! [`lemma_remove_shrinks_by_count`] makes that exact: removing N distinct
//! present paths shrinks the set by exactly N entries.

use vstd::prelude::*;
use crate::outcome::ScanResult;
use crate::order::{paths_distinct, results_sorted, sort_results};

verus! {

/// A path among the requested ones.
pub open spec fn path_requested(paths: Seq<Seq<char>>, p: Seq<char>) -> bool {
    exists|i: int| 0 <= i < paths.len() && paths[i] == p
}

/// The entries that survive a removal request: those whose path was not
/// requested, in their original order.
pub open spec fn remove_requested(s: Seq<ScanResult>, paths: Seq<Seq<char>>) -> Seq<ScanResult>
    decreases s.len(),
{
    if s.len() == 0 {
        Seq::empty()
    } else {
        let rest = remove_requested(s.drop_last(), paths);
        if path_requested(paths, s.last().path@) {
            rest
        } else {
            rest.push(s.last())
        }
    }
}

/// Every survivor of a removal stood in the set before it and was not
/// requested; survivors of a set with distinct paths keep distinct paths.
pub proof fn lemma_remove_requested_props(s: Seq<ScanResult>, paths: Seq<Seq<char>>)
    ensures
        forall|x: ScanResult|
            #[trigger] remove_requested(s, paths).contains(x) ==> s.contains(x) && !path_requested(
                paths,
                x.path@,
            ),
        paths_distinct(s) ==> paths_distinct(remove_requested(s, paths)),
    decreases s.len(),
{
    if s.len() > 0 {
        lemma_remove_requested_props(s.drop_last(), paths);
        let out = remove_requested(s, paths);
        let rest = remove_requested(s.drop_last(), paths);
        assert forall|x: ScanResult| #[trigger] out.contains(x) implies s.contains(x)
            && !path_requested(paths, x.path@) by {
            if rest.contains(x) {
                assert(s.drop_last().contains(x));
                let k = choose|k: int| 0 <= k < s.drop_last().len() && s.drop_last()[k] == x;
                assert(s[k] == x);
            } else {
                assert(x == s.last());
                assert(s[s.len() - 1] == x);
            }
        }
        if paths_distinct(s) {
            assert(paths_distinct(s.drop_last())) by {
                assert forall|i: int, j: int|
                    0 <= i < j < s.drop_last().len() implies s.drop_last()[i].path@
                    != s.drop_last()[j].path@ by {
                    assert(s.drop_last()[i] == s[i]);
                    assert(s.drop_last()[j] == s[j]);
                }
            }
            if !path_requested(paths, s.last().path@) {
                assert forall|i: int, j: int| 0 <= i < j < out.len() implies out[i].path@
                    != out[j].path@ by {
                    assert(out == rest.push(s.last()));
                    if j < out.len() - 1 {
                        assert(out[i] == rest[i]);
                        assert(out[j] == rest[j]);
                    } else {
                        assert(out[j] == s.last());
                        assert(out[i] == rest[i]);
                        assert(rest.contains(rest[i]));
                        let k = choose|k: int|
                            0 <= k < s.drop_last().len() && s.drop_last()[k] == rest[i];
                        assert(s[k] == rest[i]);
                        assert(s[k].path@ != s[s.len() - 1].path@);
                    }
                }
            }
        }
    }
}

/// How many entries of `s` carry a requested path.
pub open spec fn requested_count(s: Seq<ScanResult>, paths: Seq<Seq<char>>) -> int
    decreases s.len(),
{
    if s.len() == 0 {
        0
    } else {
        requested_count(s.drop_last(), paths) + if path_requested(paths, s.last().path@) {
            1int
        } else {
            0int
        }
    }
}

/// How many entries of `s` carry exactly the path `p`.
pub open spec fn path_count(s: Seq<ScanResult>, p: Seq<char>) -> int
    decreases s.len(),
{
    if s.len() == 0 {
        0
    } else {
        path_count(s.drop_last(), p) + if s.last().path@ == p {
            1int
        } else {
            0int
        }
    }
}

proof fn lemma_remove_requested_len(s: Seq<ScanResult>, paths: Seq<Seq<char>>)
    ensures
        remove_requested(s, paths).len() == s.len() - requested_count(s, paths),
        0 <= requested_count(s, paths) <= s.len(),
    decreases s.len(),
{
    if s.len() > 0 {
        lemma_remove_requested_len(s.drop_last(), paths);
    }
}

proof fn lemma_path_count_zero(s: Seq<ScanResult>, p: Seq<char>)
    requires
        forall|k: int| 0 <= k < s.len() ==> s[k].path@ != p,
    ensures
        path_count(s, p) == 0,
    decreases s.len(),
{
    if s.len() > 0 {
        assert(s[s.len() - 1] == s.last());
        assert forall|k: int| 0 <= k < s.drop_last().len() implies s.drop_last()[k].path@ != p by {
            assert(s.drop_last()[k] == s[k]);
        }
        lemma_path_count_zero(s.drop_last(), p);
    }
}

proof fn lemma_path_count_one(s: Seq<ScanResult>, p: Seq<char>)
    requires
        paths_distinct(s),
        exists|k: int| 0 <= k < s.len() && s[k].path@ == p,
    ensures
        path_count(s, p) == 1,
    decreases s.len(),
{
    let k = choose|k: int| 0 <= k < s.len() && s[k].path@ == p;
    assert(paths_distinct(s.drop_last())) by {
        assert forall|i: int, j: int|
            0 <= i < j < s.drop_last().len() implies s.drop_last()[i].path@
            != s.drop_last()[j].path@ by {
            assert(s.drop_last()[i] == s[i]);
            assert(s.drop_last()[j] == s[j]);
        }
    }
    if s.last().path@ == p {
        assert forall|t: int| 0 <= t < s.drop_last().len() implies s.drop_last()[t].path@ != p by {
            assert(s.drop_last()[t] == s[t]);
            assert(s[t].path@ != s[s.len() - 1].path@);
        }
        lemma_path_count_zero(s.drop_last(), p);
    } else {
        assert(k < s.len() - 1) by {
            assert(s[s.len() - 1] == s.last());
        }
        assert(s.drop_last()[k] == s[k]);
        lemma_path_count_one(s.drop_last(), p);
    }
}

proof fn lemma_requested_count_extend(s: Seq<ScanResult>, paths: Seq<Seq<char>>, p: Seq<char>)
    requires
        forall|i: int| 0 <= i < paths.len() ==> paths[i] != p,
    ensures
        requested_count(s, paths.push(p)) == requested_count(s, paths) + path_count(s, p),
    decreases s.len(),
{
    if s.len() > 0 {
        lemma_requested_count_extend(s.drop_last(), paths, p);
        let q = s.last().path@;
        assert(path_requested(paths.push(p), q) == (path_requested(paths, q) || q == p)) by {
            if path_requested(paths.push(p), q) {
                let i = choose|i: int| 0 <= i < paths.push(p).len() && paths.push(p)[i] == q;
                if i < paths.len() {
                    assert(paths[i] == q);
                } else {
                    assert(paths.push(p)[i] == p);
                }
            }
            if path_requested(paths, q) {
                let i = choose|i: int| 0 <= i < paths.len() && paths[i] == q;
                assert(paths.push(p)[i] == q);
            }
            if q == p {
                assert(paths.push(p)[paths.len() as int] == q);
            }
        }
        if path_requested(paths, q) && q == p {
            assert(false);
        }
    }
}

proof fn lemma_requested_count_none(s: Seq<ScanResult>, paths: Seq<Seq<char>>)
    requires
        paths.len() == 0,
    ensures
        requested_count(s, paths) == 0,
    decreases s.len(),
{
    if s.len() > 0 {
        lemma_requested_count_none(s.drop_last(), paths);
        assert(!path_requested(paths, s.last().path@));
    }
}

/// Law: removing a batch of distinct, present paths shrinks the set by
/// exactly as many entries as paths were requested — independent of how any
/// filesystem removal fared, since the in-memory removal never consults it.
pub proof fn lemma_remove_shrinks_by_count(s: Seq<ScanResult>, paths: Seq<Seq<char>>)
    requires
        paths_distinct(s),
        forall|i: int, j: int| 0 <= i < j < paths.len() ==> paths[i] != paths[j],
        forall|i: int|
            0 <= i < paths.len() ==> exists|k: int|
                0 <= k < s.len() && s[k].path@ == #[trigger] paths[i],
    ensures
        remove_requested(s, paths).len() == s.len() - paths.len(),
    decreases paths.len(),
{
    lemma_remove_requested_len(s, paths);
    lemma_requested_count_all(s, paths);
}

proof fn lemma_requested_count_all(s: Seq<ScanResult>, paths: Seq<Seq<char>>)
    requires
        paths_distinct(s),
        forall|i: int, j: int| 0 <= i < j < paths.len() ==> paths[i] != paths[j],
        forall|i: int|
            0 <= i < paths.len() ==> exists|k: int|
                0 <= k < s.len() && s[k].path@ == #[trigger] paths[i],
    ensures
        requested_count(s, paths) == paths.len(),
    decreases paths.len(),
{
    if paths.len() == 0 {
        lemma_requested_count_none(s, paths);
    } else {
        let rest = paths.drop_last();
        let p = paths.last();
        assert(forall|i: int| 0 <= i < rest.len() ==> rest[i] == paths[i]);
        assert forall|i: int|
            0 <= i < rest.len() implies exists|k: int|
            0 <= k < s.len() && s[k].path@ == #[trigger] rest[i] by {
            assert(exists|k: int| 0 <= k < s.len() && s[k].path@ == paths[i]);
        }
        lemma_requested_count_all(s, rest);
        assert forall|i: int| 0 <= i < rest.len() implies rest[i] != p by {
            assert(paths[i] != paths[paths.len() - 1]);
        }
        lemma_requested_count_extend(s, rest, p);
        assert(exists|k: int| 0 <= k < s.len() && s[k].path@ == p) by {
            assert(paths[paths.len() - 1] == p);
        }
        lemma_path_count_one(s, p);
        assert(rest.push(p) =~= paths);
    }
}

/// The process-wide collection of current results. Paths within it are
/// unique: discovery yields each file once, and every wholesale replacement
/// preserves that.
pub struct ResultSet {
    items: Vec<ScanResult>,
}

impl View for ResultSet {
    type V = Seq<ScanResult>;

    closed spec fn view(&self) -> Seq<ScanResult> {
        self.items@
    }
}

impl ResultSet {
    #[verifier::type_invariant]
    closed spec fn inv(self) -> bool {
        paths_distinct(self@)
    }

    /// The empty set, as the process starts with.
    pub fn new() -> (s: Self)
        ensures
            s@ == Seq::<ScanResult>::empty(),
    {
        ResultSet { items: Vec::new() }
    }

    /// Replaces the whole contents: on directory selection (all pending) and
    /// on scan completion (all rated or error).
    pub fn replace(&mut self, batch: Vec<ScanResult>)
        requires
            paths_distinct(batch@),
        ensures
            final(self)@ == batch@,
    {
        self.items = batch;
    }

    /// Clears the set, as the explicit reset does.
    pub fn clear(&mut self)
        ensures
            final(self)@ == Seq::<ScanResult>::empty(),
    {
        self.items = Vec::new();
    }

    /// The number of current results.
    pub fn len(&self) -> (n: usize)
        ensures
            n == self@.len(),
    {
        self.items.len()
    }

    /// One current result.
    pub fn get(&self, i: usize) -> (r: &ScanResult)
        requires
            i < self@.len(),
        ensures
            *r == self@[i as int],
    {
        &self.items[i]
    }

    /// Removes every entry whose path was requested, keeping the rest in
    /// order. Nothing here depends on whether a filesystem removal of those
    /// paths succeeded.
    pub fn remove_paths(&mut self, paths: &Vec<String>)
        ensures
            final(self)@ == remove_requested(old(self)@, paths.deep_view()),
    {
        proof {
            use_type_invariant(&*self);
        }
        let ghost orig: Seq<ScanResult> = self@;
        let mut kept: Vec<ScanResult> = Vec::new();
        let n = self.items.len();
        let mut i: usize = 0;
        proof {
            assert(orig.subrange(0, 0).len() == 0);
            assert(kept@ =~= remove_requested(orig.subrange(0, 0), paths.deep_view()));
        }
        while i < n
            invariant
                i <= n,
                n == orig.len(),
                self@ == orig,
                kept@ == remove_requested(orig.subrange(0, i as int), paths.deep_view()),
            decreases n - i,
        {
            let r = &self.items[i];
            proof {
                let pre = orig.subrange(0, i as int);
                let cur = orig.subrange(0, i + 1);
                assert(cur.drop_last() =~= pre);
                assert(cur.last() == orig[i as int]);
            }
            if !path_in(paths, &r.path) {
                let copy = r.clone();
                kept.push(copy);
            }
            i = i + 1;
        }
        proof {
            assert(orig.subrange(0, n as int) =~= orig);
            lemma_remove_requested_props(orig, paths.deep_view());
        }
        self.items = kept;
    }

    /// The published view: the current results in canonical order.
    pub fn sorted_results(&self) -> (out: Vec<ScanResult>)
        ensures
            results_sorted(out@),
            out@.to_multiset() == self@.to_multiset(),
    {
        let mut copy: Vec<ScanResult> = Vec::new();
        let n = self.items.len();
        let mut i: usize = 0;
        while i < n
            invariant
                i <= n,
                n == self@.len(),
                copy@ =~= self@.subrange(0, i as int),
            decreases n - i,
        {
            copy.push(self.items[i].clone());
            proof {
                assert(copy@ =~= self@.subrange(0, i + 1));
            }
            i = i + 1;
        }
        proof {
            assert(copy@ =~= self@);
        }
        sort_results(copy)
    }
}

/// Whether the given path stands among the requested ones.
fn path_in(paths: &Vec<String>, p: &String) -> (b: bool)
    ensures
        b == path_requested(paths.deep_view(), p@),
{
    let n = paths.len();
    let mut k: usize = 0;
    while k < n
        invariant
            k <= n,
            n == paths@.len(),
            forall|t: int| 0 <= t < k ==> paths.deep_view()[t] != p@,
        decreases n - k,
    {
        if paths[k].eq(p) {
            proof {
                assert(paths.deep_view()[k as int] == paths@[k as int]@);
            }
            return true;
        }
        proof {
            assert(paths.deep_view()[k as int] == paths@[k as int]@);
        }
        k = k + 1;
    }
    false
}

} // verus!
