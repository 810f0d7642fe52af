//! The favourites store: the semantics of the durable favourite-path
//! table.
//!
//! The durable table itself is a single-column database outside this
//! crate. This module fixes what each operation does to the table's
//! contents: a plain insert appends a row and permits duplicates, the
//! read returns the distinct paths in first-insertion order, and a remove
//! deletes every row matching a path exactly — removing an absent path
//! changes nothing and is not an error. The I/O layer mirrors each
//! operation onto the database one statement at a time.

use vstd::prelude::*;

verus! {

/// The distinct projection of `rows`: every value once, in the order of
/// its first appearance.
pub open spec fn distinct_rows(rows: Seq<Seq<char>>) -> Seq<Seq<char>>
    decreases rows.len(),
{
    if rows.len() == 0 {
        rows
    } else {
        let head = distinct_rows(rows.drop_last());
        if rows.drop_last().contains(rows.last()) {
            head
        } else {
            head.push(rows.last())
        }
    }
}

/// `rows` with every row equal to `p` deleted.
pub open spec fn removed(rows: Seq<Seq<char>>, p: Seq<char>) -> Seq<Seq<char>>
    decreases rows.len(),
{
    if rows.len() == 0 {
        rows
    } else {
        let head = removed(rows.drop_last(), p);
        if rows.last() == p {
            head
        } else {
            head.push(rows.last())
        }
    }
}

/// A sequence of rows holds `p` iff some prefix extended by one more row
/// does; the step form used by the induction proofs below.
proof fn lemma_contains_push(s: Seq<Seq<char>>, x: Seq<char>, p: Seq<char>)
    ensures
        s.push(x).contains(p) <==> s.contains(p) || x == p,
{
    if s.push(x).contains(p) {
        let i = choose|i: int| 0 <= i < s.push(x).len() && s.push(x)[i] == p;
        if i < s.len() {
            assert(s[i] == p);
        }
    }
    if s.contains(p) {
        let i = choose|i: int| 0 <= i < s.len() && s[i] == p;
        assert(s.push(x)[i] == p);
    }
    if x == p {
        assert(s.push(x)[s.len() as int] == p);
    }
}

/// The distinct projection lists exactly the values of the table: a path
/// appears in it iff some row holds that path.
pub proof fn lemma_distinct_rows_membership(rows: Seq<Seq<char>>, p: Seq<char>)
    ensures
        distinct_rows(rows).contains(p) <==> rows.contains(p),
    decreases rows.len(),
{
    if rows.len() > 0 {
        let head = rows.drop_last();
        let x = rows.last();
        lemma_distinct_rows_membership(head, p);
        assert(rows =~= head.push(x));
        lemma_contains_push(head, x, p);
        if !head.contains(x) {
            lemma_contains_push(distinct_rows(head), x, p);
        }
    }
}

/// The distinct projection holds no value twice.
pub proof fn lemma_distinct_rows_unique(rows: Seq<Seq<char>>)
    ensures
        forall|i: int, j: int|
            0 <= i < j < distinct_rows(rows).len() ==> distinct_rows(rows)[i] != distinct_rows(
                rows,
            )[j],
    decreases rows.len(),
{
    if rows.len() > 0 {
        let head = rows.drop_last();
        let x = rows.last();
        lemma_distinct_rows_unique(head);
        if !head.contains(x) {
            lemma_distinct_rows_membership(head, x);
            assert(!distinct_rows(head).contains(x));
            assert forall|i: int, j: int|
                0 <= i < j < distinct_rows(rows).len() implies distinct_rows(rows)[i]
                != distinct_rows(rows)[j] by {
                if j == distinct_rows(rows).len() - 1 {
                    assert(distinct_rows(head)[i] == distinct_rows(rows)[i]);
                    assert(distinct_rows(head).contains(distinct_rows(head)[i]));
                }
            }
        }
    }
}

/// Removing `p` deletes every row holding `p` and nothing else: a path
/// remains in the table iff it was there and differs from `p`.
pub proof fn lemma_removed_membership(rows: Seq<Seq<char>>, p: Seq<char>, q: Seq<char>)
    ensures
        removed(rows, p).contains(q) <==> rows.contains(q) && q != p,
    decreases rows.len(),
{
    if rows.len() > 0 {
        let head = rows.drop_last();
        let x = rows.last();
        lemma_removed_membership(head, p, q);
        assert(rows =~= head.push(x));
        lemma_contains_push(head, x, q);
        if x != p {
            lemma_contains_push(removed(head, p), x, q);
        }
    }
}

/// Removing a path that no row holds leaves the table unchanged: the
/// remove is idempotent and an absent path is not an error.
pub proof fn lemma_remove_absent(rows: Seq<Seq<char>>, p: Seq<char>)
    requires
        !rows.contains(p),
    ensures
        removed(rows, p) == rows,
    decreases rows.len(),
{
    if rows.len() > 0 {
        let head = rows.drop_last();
        let x = rows.last();
        assert forall|j: int| 0 <= j < head.len() implies head[j] != p by {
            assert(rows[j] == head[j]);
        }
        assert(!head.contains(p));
        lemma_remove_absent(head, p);
        assert(rows[rows.len() - 1] != p);
        assert(removed(head, p).push(x) =~= rows);
    }
}

/// After an add of `p`, the distinct read lists `p`.
pub proof fn lemma_added_path_listed(rows: Seq<Seq<char>>, p: Seq<char>)
    ensures
        distinct_rows(rows.push(p)).contains(p),
{
    lemma_distinct_rows_membership(rows.push(p), p);
    assert(rows.push(p)[rows.len() as int] == p);
}

/// After a remove of `p`, the distinct read no longer lists `p`.
pub proof fn lemma_removed_path_not_listed(rows: Seq<Seq<char>>, p: Seq<char>)
    ensures
        !distinct_rows(removed(rows, p)).contains(p),
{
    lemma_distinct_rows_membership(removed(rows, p), p);
    lemma_removed_membership(rows, p, p);
}

/// The favourite-path table, as the store's operations see it: rows in
/// insertion order, duplicates permitted.
pub struct FavouritesStore {
    rows: Vec<String>,
}

impl FavouritesStore {
    /// The table's contents, row by row in insertion order.
    pub closed spec fn table(self) -> Seq<Seq<char>> {
        self.rows.deep_view()
    }

    /// A store with no favourites.
    pub fn new() -> (s: FavouritesStore)
        ensures
            s.table() == Seq::<Seq<char>>::empty(),
    {
        let s = FavouritesStore { rows: Vec::new() };
        proof {
            assert(s.table() =~= Seq::<Seq<char>>::empty());
        }
        s
    }

    /// Insert `path` as one more row. The insert is plain: a duplicate of
    /// an existing row is permitted and folded away by the distinct read.
    pub fn add_favourite(&mut self, path: String)
        ensures
            final (self).table() == old(self).table().push(path@),
    {
        let ghost pre = self.table();
        let ghost p = path@;
        self.rows.push(path);
        proof {
            assert(self.table() =~= pre.push(p));
        }
    }

    /// The distinct favourite paths, each once, in first-insertion order.
    pub fn get_favourites(&self) -> (r: Vec<String>)
        ensures
            r.deep_view() == distinct_rows(self.table()),
    {
        let mut out: Vec<String> = Vec::new();
        let n: usize = self.rows.len();
        proof {
            assert(self.table().take(0) =~= Seq::<Seq<char>>::empty());
            assert(out.deep_view() =~= distinct_rows(self.table().take(0)));
        }
        for i in 0..n
            invariant
                n == self.rows@.len(),
                out.deep_view() == distinct_rows(self.table().take(i as int)),
        {
            let ghost pre = out.deep_view();
            let seen = vec_holds(&out, &self.rows[i]);
            proof {
                lemma_distinct_rows_membership(self.table().take(i as int), self.table()[i as int]);
                assert(self.table().take(i + 1).drop_last() =~= self.table().take(i as int));
                assert(self.table().take(i + 1).last() == self.table()[i as int]);
            }
            if !seen {
                out.push(self.rows[i].clone());
                proof {
                    assert(out.deep_view() =~= pre.push(self.table()[i as int]));
                }
            }
        }
        proof {
            assert(self.table().take(n as int) =~= self.table());
        }
        out
    }

    /// Delete every row matching `path` exactly. When no row matches,
    /// nothing is deleted and the call still succeeds.
    pub fn remove_favourite(&mut self, path: &String)
        ensures
            final (self).table() == removed(old(self).table(), path@),
    {
        let ghost whole = self.table();
        let mut out: Vec<String> = Vec::new();
        let n: usize = self.rows.len();
        proof {
            assert(whole.take(0) =~= Seq::<Seq<char>>::empty());
            assert(out.deep_view() =~= removed(whole.take(0), path@));
        }
        for i in 0..n
            invariant
                n == self.rows@.len(),
                whole == self.table(),
                out.deep_view() == removed(whole.take(i as int), path@),
        {
            let ghost pre = out.deep_view();
            let hit = string_eq(&self.rows[i], path);
            proof {
                assert(whole.take(i + 1).drop_last() =~= whole.take(i as int));
                assert(whole.take(i + 1).last() == whole[i as int]);
            }
            if !hit {
                out.push(self.rows[i].clone());
                proof {
                    assert(out.deep_view() =~= pre.push(whole[i as int]));
                }
            }
        }
        proof {
            assert(whole.take(n as int) =~= whole);
        }
        self.rows = out;
    }
}

/// Whether some row of `v` holds exactly the path `s`.
fn vec_holds(v: &Vec<String>, s: &String) -> (r: bool)
    ensures
        r == v.deep_view().contains(s@),
{
    let n: usize = v.len();
    for i in 0..n
        invariant
            n == v@.len(),
            forall|j: int| 0 <= j < i ==> v.deep_view()[j] != s@,
    {
        if string_eq(&v[i], s) {
            proof {
                assert(v.deep_view()[i as int] == s@);
            }
            return true;
        }
    }
    false
}

/// Whether two paths are the same string, character for character.
fn string_eq(a: &String, b: &String) -> (r: bool)
    ensures
        r == (a@ == b@),
{
    a.eq(b)
}

} // verus!
