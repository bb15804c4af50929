//! Consistent overhead byte stuffing: a byte string without zeros, so that a
//! single zero can end each frame on the wire.
use vstd::prelude::*;

verus! {

/// Longest run of non-zero bytes one block holds.
pub const MAX_RUN: usize = 254;

/// Length of the run of non-zero bytes of `s` from `pos + r` on, capped
/// at [`MAX_RUN`], plus `r`.
pub open spec fn run_at(s: Seq<u8>, pos: int, r: int) -> int
    decreases MAX_RUN - r,
{
    if r >= MAX_RUN || pos + r >= s.len() || s[pos + r] == 0 {
        r
    } else {
        run_at(s, pos, r + 1)
    }
}

/// Stuffed form of `s` from `pos` on: blocks of a code byte followed by up to
/// 254 non-zero bytes. A code below 255 stands for its run and one zero,
/// except in the last block, which stands for its run alone.
pub open spec fn enc_from(s: Seq<u8>, pos: int) -> Seq<u8>
    decreases s.len() - pos,
{
    if pos < 0 || pos > s.len() {
        Seq::empty()
    } else {
        let r = run_at(s, pos, 0);
        let block = seq![(r + 1) as u8] + s.subrange(pos, pos + r);
        if r >= MAX_RUN && pos + r <= s.len() {
            block + enc_from(s, pos + r)
        } else if 0 <= r && pos + r < s.len() {
            block + enc_from(s, pos + r + 1)
        } else {
            block
        }
    }
}

pub open spec fn cobs_encoded(s: Seq<u8>) -> Seq<u8> {
    enc_from(s, 0)
}

/// The bytes a stuffed string stands for, if it is well formed.
pub open spec fn cobs_decoded(e: Seq<u8>) -> Option<Seq<u8>>
    decreases e.len(),
{
    if e.len() == 0 {
        Some(Seq::empty())
    } else {
        let code = e[0] as int;
        if code == 0 || code > e.len() {
            None
        } else {
            let block = e.subrange(1, code);
            let rest = e.subrange(code, e.len() as int);
            if block.contains(0u8) {
                None
            } else if rest.len() == 0 {
                Some(block)
            } else {
                match cobs_decoded(rest) {
                    Some(d) => Some(
                        block + (if code == 255 {
                            Seq::empty()
                        } else {
                            seq![0u8]
                        }) + d,
                    ),
                    None => None,
                }
            }
        }
    }
}

proof fn lemma_run_at(s: Seq<u8>, pos: int, r: int)
    requires
        0 <= pos <= s.len(),
        0 <= r <= MAX_RUN,
        pos + r <= s.len(),
        forall|k: int| pos <= k < pos + r ==> s[k] != 0,
    ensures
        r <= run_at(s, pos, r) <= MAX_RUN,
        pos + run_at(s, pos, r) <= s.len(),
        forall|k: int| pos <= k < pos + run_at(s, pos, r) ==> s[k] != 0,
        run_at(s, pos, r) < MAX_RUN ==> pos + run_at(s, pos, r) == s.len() || s[pos + run_at(
            s,
            pos,
            r,
        )] == 0,
    decreases MAX_RUN - r,
{
    if !(r >= MAX_RUN || pos + r >= s.len() || s[pos + r] == 0) {
        lemma_run_at(s, pos, r + 1);
    }
}

proof fn lemma_enc_nonempty(s: Seq<u8>, pos: int)
    requires
        0 <= pos <= s.len(),
    ensures
        enc_from(s, pos).len() > 0,
        enc_from(s, pos)[0] != 0,
{
    lemma_run_at(s, pos, 0);
    let r = run_at(s, pos, 0);
    let block = seq![(r + 1) as u8] + s.subrange(pos, pos + r);
    assert(enc_from(s, pos)[0] == block[0]);
}

/// Stuffing can always be undone: decoding the stuffed bytes gives back
/// the bytes from `pos` on.
pub proof fn lemma_enc_dec(s: Seq<u8>, pos: int)
    requires
        0 <= pos <= s.len(),
    ensures
        cobs_decoded(enc_from(s, pos)) == Some(s.subrange(pos, s.len() as int)),
        !enc_from(s, pos).contains(0u8),
    decreases s.len() - pos,
{
    lemma_run_at(s, pos, 0);
    let r = run_at(s, pos, 0);
    let block = seq![(r + 1) as u8] + s.subrange(pos, pos + r);
    let e = enc_from(s, pos);
    let next = if r >= MAX_RUN {
        pos + r
    } else {
        pos + r + 1
    };
    let tail = if r >= MAX_RUN || pos + r < s.len() {
        enc_from(s, next)
    } else {
        Seq::empty()
    };
    assert(e =~= block + tail);
    assert(e.subrange(1, r + 1) =~= s.subrange(pos, pos + r));
    assert(e.subrange(r + 1, e.len() as int) =~= tail);
    assert(!s.subrange(pos, pos + r).contains(0u8));
    if r >= MAX_RUN || pos + r < s.len() {
        lemma_enc_dec(s, next);
        lemma_enc_nonempty(s, next);
        if r >= MAX_RUN {
            assert(s.subrange(pos, pos + r) + s.subrange(next, s.len() as int) =~= s.subrange(
                pos,
                s.len() as int,
            ));
        } else {
            assert(s.subrange(pos, pos + r) + seq![0u8] + s.subrange(next, s.len() as int)
                =~= s.subrange(pos, s.len() as int));
        }
    } else {
        assert(s.subrange(pos, pos + r) =~= s.subrange(pos, s.len() as int));
    }
    assert(!e.contains(0u8)) by {
        if e.contains(0u8) {
            let k = choose|k: int| 0 <= k < e.len() && e[k] == 0u8;
            if k == 0 {
            } else if k <= r {
                assert(s[pos + k - 1] == e[k]);
            } else {
                assert(tail[k - r - 1] == e[k]);
            }
        }
    }
}

/// Stuffs `s`: the result holds no zero byte and decodes back to `s`.
pub fn cobs_encode(s: &Vec<u8>, out: &mut Vec<u8>)
    requires
        old(out)@.len() + 2 * s@.len() + 2 <= usize::MAX,
    ensures
        final(out)@ == old(out)@ + cobs_encoded(s@),
{
    let n = s.len();
    let mut pos: usize = 0;
    loop
        invariant
            n == s@.len(),
            pos <= n,
            old(out)@.len() + 2 * s@.len() + 2 <= usize::MAX,
            out@ + enc_from(s@, pos as int) == old(out)@ + cobs_encoded(s@),
            out@.len() <= old(out)@.len() + pos + pos / 254 + 1,
        decreases n - pos,
    {
        let mut r: usize = 0;
        while r < MAX_RUN && pos + r < n && s[pos + r] != 0
            invariant
                n == s@.len(),
                pos <= n,
                r <= MAX_RUN,
                pos + r <= n,
                run_at(s@, pos as int, r as int) == run_at(s@, pos as int, 0),
            decreases MAX_RUN - r,
        {
            r = r + 1;
        }
        proof {
            lemma_run_at(s@, pos as int, 0);
        }
        let ghost before = out@;
        out.push((r + 1) as u8);
        for k in 0..r
            invariant
                n == s@.len(),
                pos + r <= n,
                out@ == before.push((r + 1) as u8) + s@.subrange(pos as int, pos + k),
        {
            out.push(s[pos + k]);
            assert(s@.subrange(pos as int, pos + k + 1) =~= s@.subrange(pos as int, pos + k).push(
                s@[pos + k],
            ));
        }
        let ghost block = seq![(r + 1) as u8] + s@.subrange(pos as int, pos + r);
        assert(out@ =~= before + block);
        if r >= MAX_RUN {
            assert(enc_from(s@, pos as int) == block + enc_from(s@, pos + r));
            assert(out@ + enc_from(s@, pos + r) =~= before + enc_from(s@, pos as int));
            pos = pos + r;
        } else if pos + r < n {
            assert(enc_from(s@, pos as int) == block + enc_from(s@, pos + r + 1));
            assert(out@ + enc_from(s@, pos + r + 1) =~= before + enc_from(s@, pos as int));
            pos = pos + r + 1;
        } else {
            assert(enc_from(s@, pos as int) == block);
            return;
        }
    }
}

pub open spec fn opt_cat(a: Seq<u8>, o: Option<Seq<u8>>) -> Option<Seq<u8>> {
    match o {
        Some(d) => Some(a + d),
        None => None,
    }
}

/// Undoes the stuffing of the first `end` bytes of `e`; `None` when they
/// are not a well formed stuffed string.
pub fn cobs_decode(e: &Vec<u8>, end: usize) -> (r: Option<Vec<u8>>)
    requires
        end <= e@.len(),
    ensures
        r.is_some() == cobs_decoded(e@.subrange(0, end as int)).is_some(),
        r.is_some() ==> r.unwrap()@ == cobs_decoded(e@.subrange(0, end as int)).unwrap(),
{
    let ghost whole = e@.subrange(0, end as int);
    let mut out: Vec<u8> = Vec::new();
    let mut pos: usize = 0;
    assert(e@.subrange(0, end as int) =~= e@.subrange(pos as int, end as int));
    assert(opt_cat(out@, cobs_decoded(whole)) == cobs_decoded(whole)) by {
        if let Some(d) = cobs_decoded(whole) {
            assert(out@ + d =~= d);
        }
    }
    while pos < end
        invariant
            end <= e@.len(),
            pos <= end,
            whole == e@.subrange(0, end as int),
            cobs_decoded(whole) == opt_cat(out@, cobs_decoded(e@.subrange(pos as int, end as int))),
        decreases end - pos,
    {
        let ghost cur = e@.subrange(pos as int, end as int);
        let code = e[pos] as usize;
        assert(cur[0] == e@[pos as int]);
        if code == 0 || code > end - pos {
            assert(cobs_decoded(cur).is_none());
            return None;
        }
        let ghost before = out@;
        let ghost block = cur.subrange(1, code as int);
        for k in 1..code
            invariant
                pos + code <= end,
                end <= e@.len(),
                cur == e@.subrange(pos as int, end as int),
                block == cur.subrange(1, code as int),
                code == cur[0] as usize,
                code > 0,
                whole == e@.subrange(0, end as int),
                cobs_decoded(whole) == opt_cat(before, cobs_decoded(cur)),
                out@ == before + block.subrange(0, k - 1),
                !block.subrange(0, k - 1).contains(0u8),
        {
            let b = e[pos + k];
            if b == 0 {
                assert(block[k - 1] == 0);
                assert(block.contains(0u8));
                assert(cobs_decoded(cur).is_none());
                return None;
            }
            out.push(b);
            assert(block.subrange(0, k as int) =~= block.subrange(0, k - 1).push(b));
        }
        assert(block.subrange(0, code - 1) =~= block);
        let ghost rest = cur.subrange(code as int, cur.len() as int);
        assert(rest =~= e@.subrange(pos + code, end as int));
        pos = pos + code;
        if pos < end && code != 255 {
            out.push(0);
        }
        proof {
            if rest.len() == 0 {
                assert(cobs_decoded(rest) == Some(Seq::<u8>::empty()));
                assert(out@ =~= before + block);
                assert(out@ + Seq::<u8>::empty() =~= out@);
            } else {
                match cobs_decoded(rest) {
                    Some(d) => {
                        if code == 255 {
                            assert(before + (block + Seq::<u8>::empty() + d) =~= out@ + d);
                        } else {
                            assert(before + (block + seq![0u8] + d) =~= out@ + d);
                        }
                    },
                    None => {},
                }
            }
        }
    }
    assert(cobs_decoded(e@.subrange(pos as int, end as int)) == Some(Seq::<u8>::empty()));
    assert(out@ + Seq::<u8>::empty() =~= out@);
    Some(out)
}

} // verus!
