use vstd::prelude::*;

verus! {

/// The effect of one insertion on the sequence of valid values, oldest
/// first: the new value is appended, and once the sequence holds `cap`
/// values the oldest one is dropped to make room.
pub open spec fn insert_model<T>(s: Seq<T>, cap: int, v: T) -> Seq<T> {
    if s.len() < cap {
        s.push(v)
    } else {
        s.subrange(1, s.len() as int).push(v)
    }
}

/// The sequence of valid values, oldest first, after inserting the values
/// of `vs` in order into a fresh buffer of capacity `cap`.
pub open spec fn replay<T>(cap: int, vs: Seq<T>) -> Seq<T>
    decreases vs.len(),
{
    if vs.len() == 0 {
        Seq::empty()
    } else {
        insert_model(replay(cap, vs.drop_last()), cap, vs.last())
    }
}

/// After any number of insertions the buffer holds exactly the most recent
/// `cap` of the inserted values, oldest first — all of them while fewer
/// than `cap` were inserted.
pub proof fn lemma_replay_window<T>(cap: int, vs: Seq<T>)
    requires
        cap >= 1,
    ensures
        replay(cap, vs) == if vs.len() <= cap {
            vs
        } else {
            vs.subrange(vs.len() - cap, vs.len() as int)
        },
    decreases vs.len(),
{
    if vs.len() == 0 {
        assert(replay(cap, vs) =~= vs);
    } else {
        let prev = vs.drop_last();
        lemma_replay_window(cap, prev);
        if prev.len() < cap {
            assert(prev.push(vs.last()) =~= vs);
        } else if prev.len() == cap {
            assert(prev.subrange(1, cap).push(vs.last()) =~= vs.subrange(
                vs.len() - cap,
                vs.len() as int,
            ));
        } else {
            let w = prev.subrange(prev.len() - cap, prev.len() as int);
            assert(w.subrange(1, cap).push(vs.last()) =~= vs.subrange(
                vs.len() - cap,
                vs.len() as int,
            ));
        }
    }
}

/// The number of valid values never exceeds the capacity, and once at
/// least `cap` values were inserted it equals the capacity exactly.
pub proof fn lemma_replay_len<T>(cap: int, vs: Seq<T>)
    requires
        cap >= 1,
    ensures
        replay(cap, vs).len() == if vs.len() <= cap {
            vs.len() as int
        } else {
            cap
        },
{
    lemma_replay_window(cap, vs);
}

} // verus!
