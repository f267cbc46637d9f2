//! Batches of vectors, and how long to wait behind each.

use crate::script::{batches_of, is_batch, script_ok, Deed, Script, Step};
use crate::stream::{vectors, Vector, MAX_SEGS, PACE_NS};
use vstd::prelude::*;

verus! {

/// The bytes of some vectors, one after the other.
pub open spec fn flat(v: Seq<Vector>) -> Seq<u8>
    decreases v.len(),
{
    if v.len() == 0 {
        Seq::empty()
    } else {
        flat(v.drop_last()) + v.last().0
    }
}

/// The microseconds that some vectors take.
pub open spec fn total_us(v: Seq<Vector>) -> int
    decreases v.len(),
{
    if v.len() == 0 {
        0
    } else {
        total_us(v.drop_last()) + v.last().1
    }
}

/// Nanoseconds to wait behind a batch: the sum of its durations, or the floor per
/// vector where that is more, a little less than all of it.
pub open spec fn pause_ns(v: Seq<Vector>, floor_us: int) -> int {
    PACE_NS * if total_us(v) > floor_us * v.len() {
        total_us(v)
    } else {
        floor_us * v.len()
    }
}

/// How many vectors go into the next batch.
pub open spec fn next_batch(n: nat) -> int {
    if n > MAX_SEGS {
        MAX_SEGS as int
    } else {
        n as int
    }
}

/// Vectors as batches of at most `MAX_SEGS`, with a pause behind each.
pub open spec fn paced(v: Seq<Vector>, floor_us: int) -> Seq<Deed>
    decreases v.len(),
{
    if v.len() == 0 {
        Seq::empty()
    } else {
        let n = next_batch(v.len());
        let b = v.take(n);
        seq![Deed::Data(flat(b)), Deed::Pause(pause_ns(b, floor_us) as u64)] + paced(
            v.skip(n),
            floor_us,
        )
    }
}

/// As much as 64 bits hold.
pub open spec fn saturated(n: int) -> int {
    if n > u64::MAX {
        u64::MAX as int
    } else {
        n
    }
}

/// Every vector is one command.
pub open spec fn whole(v: Seq<Vector>) -> bool {
    forall|i: int| 0 <= i < v.len() ==> (#[trigger] v[i]).0.len() == 12 && v[i].1 >= 0
}

proof fn lemma_flat_len(v: Seq<Vector>)
    requires
        whole(v),
    ensures
        flat(v).len() == 12 * v.len(),
        total_us(v) >= 0,
    decreases v.len(),
{
    if v.len() > 0 {
        assert(v[v.len() - 1].0.len() == 12);
        assert(whole(v.drop_last())) by {
            assert forall|i: int| 0 <= i < v.drop_last().len() implies (
            #[trigger] v.drop_last()[i]).0.len() == 12 && v.drop_last()[i].1 >= 0 by {
                assert(v[i].0.len() == 12);
            }
        }
        lemma_flat_len(v.drop_last());
    }
}

proof fn lemma_total_add(a: Seq<Vector>, b: Seq<Vector>)
    ensures
        total_us(a + b) == total_us(a) + total_us(b),
        flat(a + b) == flat(a) + flat(b),
    decreases b.len(),
{
    if b.len() == 0 {
        assert(a + b =~= a);
        assert(flat(a) + flat(b) =~= flat(a));
    } else {
        assert((a + b).drop_last() =~= a + b.drop_last());
        lemma_total_add(a, b.drop_last());
        assert(flat(a + b) =~= flat(a) + flat(b));
    }
}

/// One batch: the bytes of `cmds[lo..hi]` and the microseconds they take.
fn batch(cmds: &[([u8; 12], u32)], lo: usize, hi: usize) -> (r: (Vec<u8>, u64))
    requires
        lo <= hi <= cmds@.len(),
        hi - lo <= MAX_SEGS,
    ensures
        r.0@ == flat(vectors(cmds@).subrange(lo as int, hi as int)),
        r.1 == total_us(vectors(cmds@).subrange(lo as int, hi as int)),
        r.1 <= 0x1_0000_0000 * MAX_SEGS,
{
    let ghost v = vectors(cmds@);
    let mut blob: Vec<u8> = Vec::new();
    let mut us: u64 = 0;
    assert(v.subrange(lo as int, lo as int) =~= Seq::<Vector>::empty());
    let mut i: usize = lo;
    while i < hi
        invariant
            v == vectors(cmds@),
            lo <= i <= hi <= cmds@.len(),
            hi - lo <= MAX_SEGS,
            blob@ == flat(v.subrange(lo as int, i as int)),
            us == total_us(v.subrange(lo as int, i as int)),
            us <= 0x1_0000_0000 * (i - lo),
        decreases hi - i,
    {
        let (c, d) = cmds[i];
        assert(v[i as int] == (c@, d as int));
        blob.extend_from_slice(c.as_slice());
        us = us + d as u64;
        proof {
            let w = v.subrange(lo as int, i + 1);
            assert(w.drop_last() =~= v.subrange(lo as int, i as int));
            assert(w.last() == v[i as int]);
            assert(blob@ =~= flat(w));
        }
        i = i + 1;
    }
    (blob, us)
}

/// Write vectors in batches, paced to the board. Gives the script and the
/// microseconds that the vectors take.
pub fn emit(cmds: &[([u8; 12], u32)], floor_us: u64) -> (r: (Script, u64))
    requires
        floor_us <= 0x10000,
    ensures
        r.0@ == paced(vectors(cmds@), floor_us as int),
        r.0.lands,
        script_ok(r.0@),
        r.1 == saturated(total_us(vectors(cmds@))),
{
    let ghost v = vectors(cmds@);
    let n: usize = cmds.len();
    let mut script = Script::new();
    script.lands = true;
    let mut total: u64 = 0;
    let mut lo: usize = 0;
    proof {
        assert(v.skip(0) =~= v);
        assert(v.take(0) =~= Seq::<Vector>::empty());
        assert(script@ + paced(v, floor_us as int) =~= paced(v, floor_us as int));
        lemma_vectors_whole(cmds@);
    }
    while lo < n
        invariant
            v == vectors(cmds@),
            whole(v),
            n == cmds@.len(),
            n == v.len(),
            lo <= n,
            floor_us <= 0x10000,
            script.lands,
            script_ok(script@),
            script@ + paced(v.skip(lo as int), floor_us as int) == paced(v, floor_us as int),
            total == saturated(total_us(v.take(lo as int))),
        decreases n - lo,
    {
        let hi: usize = if n - lo > MAX_SEGS {
            lo + MAX_SEGS
        } else {
            n
        };
        let (blob, us) = batch(cmds, lo, hi);
        let ghost b = v.subrange(lo as int, hi as int);
        proof {
            let rest = v.skip(lo as int);
            let k = next_batch(rest.len());
            assert(rest.take(k) =~= b);
            assert(rest.skip(k) =~= v.skip(hi as int));
            assert(whole(b)) by {
                assert forall|i: int| 0 <= i < b.len() implies (#[trigger] b[i]).0.len() == 12
                    && b[i].1 >= 0 by {
                    assert(v[lo + i].0.len() == 12);
                }
            }
            lemma_flat_len(b);
            assert(v.take(hi as int) =~= v.take(lo as int) + b);
            lemma_total_add(v.take(lo as int), b);
        }
        let len: u64 = (hi - lo) as u64;
        assert(floor_us * len <= 0x10000 * 1400) by (nonlinear_arith)
            requires
                0 <= floor_us <= 0x10000,
                0 <= len <= 1400,
        ;
        let least: u64 = floor_us * len;
        let most: u64 = if us > least {
            us
        } else {
            least
        };
        let ghost before = script@;
        script.push(Step::Data(blob));
        script.push(Step::Pause(PACE_NS * most));
        total = if us > u64::MAX - total {
            u64::MAX
        } else {
            total + us
        };
        proof {
            let two = seq![
                Deed::Data(flat(b)),
                Deed::Pause(pause_ns(b, floor_us as int) as u64),
            ];
            assert(floor_us * len == floor_us as int * b.len());
            assert(script@ =~= before + two);
            assert(before + (two + paced(v.skip(hi as int), floor_us as int)) =~= script@ + paced(
                v.skip(hi as int),
                floor_us as int,
            ));
            assert(is_batch(flat(b)));
            assert(script_ok(script@));
        }
        lo = hi;
    }
    proof {
        assert(v.skip(n as int) =~= Seq::<Vector>::empty());
        assert(script@ + paced(v.skip(n as int), floor_us as int) =~= script@);
        assert(v.take(n as int) =~= v);
    }
    (script, total)
}

/// Commands as they come from the library are whole.
pub proof fn lemma_vectors_whole(c: Seq<([u8; 12], u32)>)
    ensures
        whole(vectors(c)),
{
    assert forall|i: int| 0 <= i < vectors(c).len() implies (#[trigger] vectors(c)[i]).0.len()
        == 12 && vectors(c)[i].1 >= 0 by {
        assert(vectors(c)[i] == (c[i].0@, c[i].1 as int));
    }
}

// ---- laws -----------------------------------------------------------------

/// Byte strings, one after the other.
pub open spec fn join(b: Seq<Seq<u8>>) -> Seq<u8>
    decreases b.len(),
{
    if b.len() == 0 {
        Seq::empty()
    } else {
        join(b.drop_last()) + b.last()
    }
}

proof fn lemma_join_add(a: Seq<Seq<u8>>, b: Seq<Seq<u8>>)
    ensures
        join(a + b) == join(a) + join(b),
    decreases b.len(),
{
    if b.len() == 0 {
        assert(a + b =~= a);
        assert(join(a) + join(b) =~= join(a));
    } else {
        assert((a + b).drop_last() =~= a + b.drop_last());
        lemma_join_add(a, b.drop_last());
        assert(join(a + b) =~= join(a) + join(b));
    }
}

proof fn lemma_batches_add(a: Seq<Deed>, b: Seq<Deed>)
    ensures
        batches_of(a + b) == batches_of(a) + batches_of(b),
    decreases b.len(),
{
    if b.len() == 0 {
        assert(a + b =~= a);
        assert(batches_of(a) + batches_of(b) =~= batches_of(a));
    } else {
        assert((a + b).drop_last() =~= a + b.drop_last());
        lemma_batches_add(a, b.drop_last());
        assert(batches_of(a + b) =~= batches_of(a) + batches_of(b));
    }
}

/// A batch and its pause carry one batch.
proof fn lemma_two(b: Seq<u8>, ns: u64)
    ensures
        batches_of(seq![Deed::Data(b), Deed::Pause(ns)]) == seq![b],
{
    let two = seq![Deed::Data(b), Deed::Pause(ns)];
    assert(two.drop_last() =~= seq![Deed::Data(b)]);
    assert(two.drop_last().drop_last() =~= Seq::<Deed>::empty());
    assert(batches_of(two.drop_last().drop_last()) =~= Seq::<Seq<u8>>::empty());
    assert(two.last() == Deed::Pause(ns));
    assert(two.drop_last().last() == Deed::Data(b));
    assert(batches_of(two.drop_last()) =~= seq![b]);
    assert(batches_of(two) =~= seq![b]);
}

/// Chunking loses nothing and adds nothing: the batches, joined, are the vectors
/// in order; there are as few as the limit allows; none is over it, and all but the
/// last are full.
pub proof fn law_batches_carry_every_vector(v: Seq<Vector>, floor_us: int)
    requires
        whole(v),
    ensures
        ({
            let b = batches_of(paced(v, floor_us));
            &&& join(b) == flat(v)
            &&& b.len() == (v.len() + MAX_SEGS - 1) / MAX_SEGS as int
            &&& forall|i: int|
                0 <= i < b.len() ==> is_batch(#[trigger] b[i]) && b[i].len() <= 12 * MAX_SEGS
            &&& forall|i: int| 0 <= i < b.len() - 1 ==> (#[trigger] b[i]).len() == 12 * MAX_SEGS
        }),
    decreases v.len(),
{
    if v.len() > 0 {
        let n = next_batch(v.len());
        let c = v.take(n);
        let rest = v.skip(n);
        let ns = pause_ns(c, floor_us) as u64;
        assert(whole(rest)) by {
            assert forall|i: int| 0 <= i < rest.len() implies (#[trigger] rest[i]).0.len() == 12
                && rest[i].1 >= 0 by {
                assert(v[n + i].0.len() == 12);
            }
        }
        assert(whole(c)) by {
            assert forall|i: int| 0 <= i < c.len() implies (#[trigger] c[i]).0.len() == 12
                && c[i].1 >= 0 by {
                assert(v[i].0.len() == 12);
            }
        }
        law_batches_carry_every_vector(rest, floor_us);
        lemma_flat_len(c);
        lemma_two(flat(c), ns);
        lemma_batches_add(seq![Deed::Data(flat(c)), Deed::Pause(ns)], paced(rest, floor_us));
        let b = batches_of(paced(v, floor_us));
        let tail = batches_of(paced(rest, floor_us));
        assert(b =~= seq![flat(c)] + tail);
        lemma_join_add(seq![flat(c)], tail);
        assert(seq![flat(c)].drop_last() =~= Seq::<Seq<u8>>::empty());
        assert(join(seq![flat(c)].drop_last()) =~= Seq::<u8>::empty());
        assert(join(seq![flat(c)]) =~= flat(c));
        assert(v =~= c + rest);
        lemma_total_add(c, rest);
        assert forall|i: int| 0 <= i < b.len() implies is_batch(#[trigger] b[i]) && b[i].len()
            <= 12 * MAX_SEGS by {
            if i > 0 {
                assert(b[i] == tail[i - 1]);
            }
        }
        assert forall|i: int| 0 <= i < b.len() - 1 implies (#[trigger] b[i]).len() == 12
            * MAX_SEGS by {
            if i > 0 {
                assert(b[i] == tail[i - 1]);
            } else {
                assert(tail.len() > 0 && rest.len() > 0);
            }
        }
        if v.len() > MAX_SEGS {
            assert((v.len() + MAX_SEGS - 1) / MAX_SEGS as int == 1 + (rest.len() + MAX_SEGS - 1)
                / MAX_SEGS as int);
        }
    }
}

/// Command `i` stands at byte `12 * i`, so a batch splits back into its vectors.
pub proof fn law_a_batch_splits_into_its_vectors(v: Seq<Vector>, i: int)
    requires
        whole(v),
        0 <= i < v.len(),
    ensures
        flat(v).len() == 12 * v.len(),
        flat(v).subrange(12 * i, 12 * i + 12) == v[i].0,
    decreases v.len(),
{
    lemma_flat_len(v);
    let d = v.drop_last();
    assert(whole(d)) by {
        assert forall|j: int| 0 <= j < d.len() implies (#[trigger] d[j]).0.len() == 12 && d[j].1
            >= 0 by {
            assert(v[j].0.len() == 12);
        }
    }
    lemma_flat_len(d);
    if i < d.len() {
        law_a_batch_splits_into_its_vectors(d, i);
        assert(flat(v).subrange(12 * i, 12 * i + 12) =~= flat(d).subrange(12 * i, 12 * i + 12));
    } else {
        assert(flat(v).subrange(12 * i, 12 * i + 12) =~= v.last().0);
    }
}

} // verus!
