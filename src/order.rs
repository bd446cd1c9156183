//! Orders: chunks by end time (stable), project names lexicographically.

use vstd::multiset::Multiset;
use vstd::prelude::*;

use crate::day::Chunk;
use crate::day::chunks_wf;

verus! {

/// `s` with `c` placed after every chunk that ends no later than `c`, counting from the
/// back: a stable insertion into a sequence sorted by end time.
pub open spec fn insert_by_end(s: Seq<Chunk>, c: Chunk) -> Seq<Chunk>
    decreases s.len(),
{
    if s.len() == 0 {
        seq![c]
    } else if s.last().end_time.minutes() <= c.end_time.minutes() {
        s.push(c)
    } else {
        insert_by_end(s.drop_last(), c).push(s.last())
    }
}

/// The chunks sorted by end time; chunks that end at the same time keep their order.
pub open spec fn sort_by_end(s: Seq<Chunk>) -> Seq<Chunk>
    decreases s.len(),
{
    if s.len() == 0 {
        s
    } else {
        insert_by_end(sort_by_end(s.drop_last()), s.last())
    }
}

/// End times never decrease along the sequence.
pub open spec fn sorted_by_end(s: Seq<Chunk>) -> bool {
    forall|i: int, j: int|
        0 <= i <= j < s.len() ==> s[i].end_time.minutes() <= s[j].end_time.minutes()
}

proof fn lemma_insert_by_end(s: Seq<Chunk>, c: Chunk)
    ensures
        insert_by_end(s, c).to_multiset() == s.to_multiset().insert(c),
        insert_by_end(s, c).len() == s.len() + 1,
        sorted_by_end(s) ==> sorted_by_end(insert_by_end(s, c)),
    decreases s.len(),
{
    broadcast use vstd::seq_lib::group_to_multiset_ensures;

    if s.len() == 0 {
        assert(seq![c] =~= Seq::<Chunk>::empty().push(c));
    } else if s.last().end_time.minutes() <= c.end_time.minutes() {
    } else {
        let r = insert_by_end(s.drop_last(), c);
        lemma_insert_by_end(s.drop_last(), c);
        assert(s =~= s.drop_last().push(s.last()));
        assert(s.to_multiset() == s.drop_last().to_multiset().insert(s.last()));
        if sorted_by_end(s) {
            assert(sorted_by_end(s.drop_last()));
            let rr = r.push(s.last());
            assert forall|i: int, j: int|
                0 <= i <= j < rr.len() implies rr[i].end_time.minutes()
                <= rr[j].end_time.minutes() by {
                if j == rr.len() - 1 && i < j {
                    // every element of r is an element of s.drop_last() or c
                    assert(r.to_multiset().count(r[i]) > 0);
                    assert(s.drop_last().to_multiset().insert(c).count(r[i]) > 0);
                    if r[i] != c {
                        assert(s.drop_last().to_multiset().count(r[i]) > 0);
                        assert(s.drop_last().contains(r[i]));
                    }
                }
            }
        }
    }
}

/// Sorting by end time keeps the chunks, and sorts them.
pub proof fn lemma_sort_by_end(s: Seq<Chunk>)
    ensures
        sort_by_end(s).to_multiset() == s.to_multiset(),
        sort_by_end(s).len() == s.len(),
        sorted_by_end(sort_by_end(s)),
    decreases s.len(),
{
    broadcast use vstd::seq_lib::group_to_multiset_ensures;

    if s.len() > 0 {
        lemma_sort_by_end(s.drop_last());
        lemma_insert_by_end(sort_by_end(s.drop_last()), s.last());
        assert(s =~= s.drop_last().push(s.last()));
    }
}

/// Sorting keeps every chunk's end time a time of day.
pub proof fn lemma_sort_keeps_wf(s: Seq<Chunk>)
    requires
        chunks_wf(s),
    ensures
        chunks_wf(sort_by_end(s)),
{
    broadcast use vstd::seq_lib::group_to_multiset_ensures;

    lemma_sort_by_end(s);
    let r = sort_by_end(s);
    assert forall|k: int| 0 <= k < r.len() implies (#[trigger] r[k]).end_time.wf() by {
        assert(r.to_multiset().count(r[k]) > 0);
        assert(s.to_multiset().count(r[k]) > 0);
        assert(s.contains(r[k]));
    }
}

/// The chunks sorted by end time, stably.
pub fn sort_chunks(chunks: Vec<Chunk>) -> (r: Vec<Chunk>)
    requires
        chunks_wf(chunks@),
    ensures
        r@ == sort_by_end(chunks@),
{
    let ghost all = chunks@;
    let mut rest = chunks;
    let mut out: Vec<Chunk> = Vec::new();
    let mut i: usize = 0;
    let n = rest.len();
    while rest.len() > 0
        invariant
            n == all.len(),
            i + rest@.len() == n,
            rest@ == all.skip(i as int),
            out@ == sort_by_end(all.take(i as int)),
            chunks_wf(all),
            chunks_wf(out@),
        decreases rest@.len(),
    {
        let c = rest.remove(0);
        proof {
            assert(all.take(i + 1).drop_last() =~= all.take(i as int));
            assert(all.take(i + 1).last() == c);
        }
        assert(all[i as int] == c);
        let ghost before = out@;
        let mut j = out.len();
        assert(before.take(j as int) =~= before);
        assert(before.skip(j as int) =~= Seq::<Chunk>::empty());
        while j > 0 && out[j - 1].end_time.minutes_since_midnight()
            > c.end_time.minutes_since_midnight()
            invariant
                j <= out@.len(),
                out@ == before,
                chunks_wf(out@),
                c.end_time.wf(),
                insert_by_end(before, c) == insert_by_end(before.take(j as int), c) + before.skip(
                    j as int,
                ),
            decreases j,
        {
            proof {
                let t = before.take(j as int);
                assert(t.drop_last() =~= before.take(j - 1));
                assert(before.skip(j - 1) =~= seq![t.last()] + before.skip(j as int));
                assert(insert_by_end(t, c) == insert_by_end(t.drop_last(), c).push(t.last()));
                assert(insert_by_end(t.drop_last(), c).push(t.last()) + before.skip(j as int)
                    =~= insert_by_end(t.drop_last(), c) + before.skip(j - 1));
            }
            j = j - 1;
        }
        proof {
            let t = before.take(j as int);
            if j > 0 {
                assert(insert_by_end(t, c) == t.push(c));
            }
            assert(insert_by_end(t, c) =~= t.push(c));
        }
        out.insert(j, c);
        proof {
            assert(out@ =~= before.take(j as int).push(c) + before.skip(j as int));
            assert forall|k: int| 0 <= k < out@.len() implies (#[trigger] out@[k]).end_time.wf() by {
                if k < j {
                    assert(out@[k] == before[k]);
                } else if k > j {
                    assert(out@[k] == before[k - 1]);
                }
            }
        }
        i = i + 1;
    }
    proof {
        assert(all.take(n as int) =~= all);
    }
    out
}

/// No two different chunks end at the same time.
pub open spec fn ends_distinct(s: Seq<Chunk>) -> bool {
    forall|i: int, j: int|
        0 <= i < s.len() && 0 <= j < s.len() && (#[trigger] s[i]).end_time.minutes() == (
        #[trigger] s[j]).end_time.minutes() ==> s[i] == s[j]
}

/// No two different chunks of the multiset end at the same time.
pub open spec fn ends_identify(m: Multiset<Chunk>) -> bool {
    forall|x: Chunk, y: Chunk|
        #[trigger] m.count(x) > 0 && #[trigger] m.count(y) > 0 && x.end_time.minutes()
            == y.end_time.minutes() ==> x == y
}

proof fn lemma_sorted_determined(a: Seq<Chunk>, b: Seq<Chunk>)
    requires
        sorted_by_end(a),
        sorted_by_end(b),
        a.to_multiset() == b.to_multiset(),
        ends_identify(a.to_multiset()),
    ensures
        a == b,
    decreases a.len(),
{
    broadcast use vstd::seq_lib::group_to_multiset_ensures;

    assert(a.len() == b.len()) by {
        assert(a.to_multiset().len() == a.len());
        assert(b.to_multiset().len() == b.len());
    }
    if a.len() == 0 {
        assert(a =~= b);
    } else {
        let n = a.len();
        let x = a.last();
        let y = b.last();
        assert(a.contains(x));
        assert(b.contains(y));
        assert(a.to_multiset().count(x) > 0);
        assert(b.to_multiset().count(y) > 0);
        assert(b.contains(x));
        assert(a.contains(y));
        let j = choose|j: int| 0 <= j < n && a[j] == y;
        let k = choose|k: int| 0 <= k < n && b[k] == x;
        assert(x.end_time.minutes() == y.end_time.minutes());
        assert(x == y);
        assert(a =~= a.drop_last().push(x));
        assert(b =~= b.drop_last().push(y));
        let ma = a.drop_last().to_multiset();
        let mb = b.drop_last().to_multiset();
        assert(ma.insert(x) == mb.insert(x));
        assert(ma =~= ma.insert(x).remove(x));
        assert(mb =~= mb.insert(x).remove(x));
        assert(ends_identify(ma)) by {
            assert forall|u: Chunk, v: Chunk|
                #[trigger] ma.count(u) > 0 && #[trigger] ma.count(v) > 0 && u.end_time.minutes()
                    == v.end_time.minutes() implies u == v by {
                assert(a.to_multiset().count(u) > 0);
                assert(a.to_multiset().count(v) > 0);
            }
        }
        lemma_sorted_determined(a.drop_last(), b.drop_last());
    }
}

/// Durations depend on the set of chunks, not on the order in which they were added:
/// two days' worth of chunks that hold the same chunks sort alike, wherever no two
/// different chunks end at the same time.
pub proof fn lemma_sort_order_independent(a: Seq<Chunk>, b: Seq<Chunk>)
    requires
        a.to_multiset() == b.to_multiset(),
        ends_distinct(a),
    ensures
        sort_by_end(a) == sort_by_end(b),
{
    broadcast use vstd::seq_lib::group_to_multiset_ensures;

    lemma_sort_by_end(a);
    lemma_sort_by_end(b);
    assert(ends_identify(a.to_multiset())) by {
        assert forall|x: Chunk, y: Chunk|
            #[trigger] a.to_multiset().count(x) > 0 && #[trigger] a.to_multiset().count(y) > 0
                && x.end_time.minutes() == y.end_time.minutes() implies x == y by {
            assert(a.contains(x));
            assert(a.contains(y));
            let i = choose|i: int| 0 <= i < a.len() && a[i] == x;
            let j = choose|j: int| 0 <= j < a.len() && a[j] == y;
        }
    }
    lemma_sorted_determined(sort_by_end(a), sort_by_end(b));
}

/// Where a chunk added last, perhaps ending before chunks stored earlier, stands once
/// the chunks are sorted: after every chunk that ends no later, before every chunk that
/// ends later.
pub proof fn lemma_added_chunk_position(s: Seq<Chunk>, c: Chunk)
    ensures
        ({
            let sorted = sort_by_end(s);
            exists|k: int|
                0 <= k <= sorted.len() && #[trigger] sort_by_end(s.push(c)) == sorted.take(k).push(c)
                    + sorted.skip(k) && (forall|i: int|
                    0 <= i < k ==> sorted[i].end_time.minutes() <= c.end_time.minutes())
                    && (forall|i: int|
                    k <= i < sorted.len() ==> sorted[i].end_time.minutes()
                        > c.end_time.minutes())
        }),
{
    lemma_sort_by_end(s);
    assert(s.push(c).drop_last() =~= s);
    let k = lemma_insert_position(sort_by_end(s), c);
}

proof fn lemma_insert_position(s: Seq<Chunk>, c: Chunk) -> (k: int)
    requires
        sorted_by_end(s),
    ensures
        0 <= k <= s.len(),
        insert_by_end(s, c) == s.take(k).push(c) + s.skip(k),
        forall|i: int| 0 <= i < k ==> s[i].end_time.minutes() <= c.end_time.minutes(),
        forall|i: int| k <= i < s.len() ==> s[i].end_time.minutes() > c.end_time.minutes(),
    decreases s.len(),
{
    if s.len() == 0 {
        assert(seq![c] =~= s.take(0).push(c) + s.skip(0));
        0
    } else if s.last().end_time.minutes() <= c.end_time.minutes() {
        assert(s.push(c) =~= s.take(s.len() as int).push(c) + s.skip(s.len() as int));
        assert forall|i: int| 0 <= i < s.len() implies s[i].end_time.minutes()
            <= c.end_time.minutes() by {
            assert(s[i].end_time.minutes() <= s[s.len() - 1].end_time.minutes());
        }
        s.len() as int
    } else {
        let k = lemma_insert_position(s.drop_last(), c);
        let t = s.drop_last();
        assert(t.take(k).push(c) + t.skip(k) + seq![s.last()] =~= s.take(k).push(c) + s.skip(k));
        assert(insert_by_end(t, c).push(s.last()) =~= t.take(k).push(c) + t.skip(k) + seq![
            s.last(),
        ]);
        assert forall|i: int| 0 <= i < k implies s[i].end_time.minutes()
            <= c.end_time.minutes() by {
            assert(s[i] == t[i]);
        }
        assert forall|i: int| k <= i < s.len() implies s[i].end_time.minutes()
            > c.end_time.minutes() by {
            if i < s.len() - 1 {
                assert(s[i] == t[i]);
            }
        }
        k
    }
}

/// Lexicographic order of names, character by character by code point.
pub open spec fn lex_lt(a: Seq<char>, b: Seq<char>) -> bool
    decreases a.len(),
{
    if a.len() == 0 {
        b.len() > 0
    } else if b.len() == 0 {
        false
    } else if a[0] != b[0] {
        (a[0] as u32) < (b[0] as u32)
    } else {
        lex_lt(a.drop_first(), b.drop_first())
    }
}

/// Whether name `a` sorts strictly before name `b`.
pub fn name_before(a: &str, b: &str) -> (r: bool)
    ensures
        r == lex_lt(a@, b@),
{
    let la = a.unicode_len();
    let lb = b.unicode_len();
    let mut i: usize = 0;
    assert(a@.skip(0) =~= a@);
    assert(b@.skip(0) =~= b@);
    while i < la && i < lb
        invariant
            la == a@.len(),
            lb == b@.len(),
            i <= la,
            i <= lb,
            lex_lt(a@, b@) == lex_lt(a@.skip(i as int), b@.skip(i as int)),
        decreases la - i,
    {
        let ca = a.get_char(i);
        let cb = b.get_char(i);
        if ca != cb {
            return (ca as u32) < (cb as u32);
        }
        proof {
            assert(a@.skip(i as int).drop_first() =~= a@.skip(i + 1));
            assert(b@.skip(i as int).drop_first() =~= b@.skip(i + 1));
        }
        i = i + 1;
    }
    i < lb
}

} // verus!
