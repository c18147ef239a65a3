use vstd::prelude::*;

verus! {

pub open spec fn no_byte(s: Seq<u8>, x: u8) -> bool {
    forall|i: int| 0 <= i < s.len() ==> #[trigger] s[i] != x
}

/// Index of the first occurrence of `x` in `s`, or -1 when absent.
pub open spec fn find_byte(s: Seq<u8>, x: u8) -> int
    decreases s.len(),
{
    if s.len() == 0 {
        -1
    } else if s[0] == x {
        0
    } else {
        let r = find_byte(s.drop_first(), x);
        if r < 0 {
            -1
        } else {
            r + 1
        }
    }
}

pub proof fn lemma_find_byte_props(s: Seq<u8>, x: u8)
    ensures
        find_byte(s, x) < 0 ==> no_byte(s, x),
        find_byte(s, x) >= 0 ==> find_byte(s, x) < s.len() && s[find_byte(s, x)] == x && no_byte(
            s.take(find_byte(s, x)),
            x,
        ),
    decreases s.len(),
{
    if s.len() == 0 {
    } else if s[0] == x {
        assert(s.take(0) =~= Seq::<u8>::empty());
    } else {
        lemma_find_byte_props(s.drop_first(), x);
        let r = find_byte(s.drop_first(), x);
        if r < 0 {
            assert forall|i: int| 0 <= i < s.len() implies s[i] != x by {
                if i > 0 {
                    assert(s.drop_first()[i - 1] != x);
                }
            }
        } else {
            assert(s[r + 1] == s.drop_first()[r]);
            assert forall|i: int| 0 <= i < r + 1 implies #[trigger] s.take(r + 1)[i] != x by {
                if i > 0 {
                    assert(s.drop_first().take(r)[i - 1] != x);
                }
            }
        }
    }
}

/// Where `pre` holds no `x`, the first `x` of `pre + [x] + post` sits right after `pre`.
pub proof fn lemma_find_byte_frame(pre: Seq<u8>, post: Seq<u8>, x: u8)
    requires
        no_byte(pre, x),
    ensures
        find_byte(pre + seq![x] + post, x) == pre.len(),
        (pre + seq![x] + post).take(pre.len() as int) == pre,
        (pre + seq![x] + post).skip(pre.len() as int + 1) == post,
    decreases pre.len(),
{
    let s = pre + seq![x] + post;
    assert(s.take(pre.len() as int) =~= pre);
    assert(s.skip(pre.len() as int + 1) =~= post);
    if pre.len() == 0 {
        assert(s[0] == x);
    } else {
        lemma_find_byte_frame(pre.drop_first(), post, x);
        assert(s[0] == pre[0]);
        assert(s[0] != x);
        assert(s.drop_first() =~= pre.drop_first() + seq![x] + post);
    }
}

/// First occurrence of `x` in a byte slice, executable form.
pub fn scan_byte(s: &[u8], x: u8) -> (r: Option<usize>)
    ensures
        match r {
            Some(i) => find_byte(s@, x) == i as int,
            None => find_byte(s@, x) < 0,
        },
{
    let mut i: usize = 0;
    while i < s.len()
        invariant
            i <= s@.len(),
            no_byte(s@.take(i as int), x),
        decreases s@.len() - i,
    {
        if s[i] == x {
            proof {
                lemma_find_byte_props(s@, x);
                let f = find_byte(s@, x);
                if f < 0 {
                    assert(s@[i as int] != x);
                } else {
                    if f < i {
                        assert(s@.take(i as int)[f] != x);
                    }
                    if f > i {
                        assert(s@.take(f)[i as int] != x);
                    }
                }
            }
            return Some(i);
        }
        proof {
            assert(s@.take(i as int + 1) =~= s@.take(i as int).push(s@[i as int]));
        }
        i = i + 1;
    }
    proof {
        assert(s@.take(s@.len() as int) =~= s@);
        lemma_find_byte_props(s@, x);
        let f = find_byte(s@, x);
        if f >= 0 {
            assert(s@[f] != x);
        }
    }
    None
}

/// Appends every byte of `s` to `out`.
pub fn push_all(out: &mut Vec<u8>, s: &[u8])
    ensures
        final(out)@ == old(out)@ + s@,
{
    let mut i: usize = 0;
    while i < s.len()
        invariant
            i <= s@.len(),
            out@ == old(out)@ + s@.take(i as int),
        decreases s@.len() - i,
    {
        out.push(s[i]);
        proof {
            assert(s@.take(i as int + 1) =~= s@.take(i as int).push(s@[i as int]));
            assert(out@ =~= old(out)@ + s@.take(i as int + 1));
        }
        i = i + 1;
    }
    proof {
        assert(s@.take(s@.len() as int) =~= s@);
    }
}

} // verus!
