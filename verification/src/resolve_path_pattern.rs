//! The output resolver: an output template is scanned once, left to right,
//! for positional references `#N`; every reference whose index lies in
//! `[1, captures.len()]` is replaced by the corresponding capture, and every
//! other reference (index zero, out of range, or too large to read) is kept
//! character for character as literal text.

use crate::file_template::seq_views;
use vstd::prelude::*;

verus! {

/// A decimal digit.
pub open spec fn is_digit(c: char) -> bool {
    48 <= c as u32 <= 57
}

/// The value of one decimal digit.
pub open spec fn digit_val(c: char) -> int {
    c as int - 48
}

/// The length of the maximal run of digits at the head of `s`.
pub open spec fn digit_run(s: Seq<char>) -> int
    decreases s.len(),
{
    if s.len() == 0 || !is_digit(s[0]) {
        0
    } else {
        1 + digit_run(s.skip(1))
    }
}

/// The number a digit sequence writes, most significant digit first.
pub open spec fn digits_val(s: Seq<char>) -> int
    decreases s.len(),
{
    if s.len() == 0 {
        0
    } else {
        digits_val(s.take(s.len() - 1)) * 10 + digit_val(s[s.len() - 1])
    }
}

pub proof fn lemma_digit_run_bounds(s: Seq<char>)
    ensures
        0 <= digit_run(s) <= s.len(),
    decreases s.len(),
{
    if s.len() == 0 || !is_digit(s[0]) {
    } else {
        lemma_digit_run_bounds(s.skip(1));
    }
}

/// A positional reference `#` followed by at least one digit starts at the
/// head of `p`.
pub open spec fn placeholder_at_head(p: Seq<char>) -> bool {
    p.len() > 1 && p[0] == '#' && is_digit(p[1])
}

/// The single left-to-right scan of the output template `p` against the
/// captures `caps`: references in `[1, caps.len()]` are substituted by the
/// capture they select, all other text passes through unchanged, and
/// substituted text is never re-scanned.
pub open spec fn resolve_spec(p: Seq<char>, caps: Seq<Seq<char>>) -> Seq<char>
    decreases p.len(),
    via resolve_spec_decreases
{
    if p.len() == 0 {
        Seq::empty()
    } else if placeholder_at_head(p) {
        let d = digit_run(p.skip(1));
        let n = digits_val(p.subrange(1, 1 + d));
        if 1 <= n && n <= caps.len() {
            caps[n - 1] + resolve_spec(p.skip(1 + d), caps)
        } else {
            p.take(1 + d) + resolve_spec(p.skip(1 + d), caps)
        }
    } else {
        seq![p[0]] + resolve_spec(p.skip(1), caps)
    }
}

#[via_fn]
proof fn resolve_spec_decreases(p: Seq<char>, caps: Seq<Seq<char>>) {
    if p.len() > 0 && placeholder_at_head(p) {
        lemma_digit_run_bounds(p.skip(1));
    }
}

/// The set of positional reference values the output template mentions.
pub open spec fn refs_of(p: Seq<char>) -> Set<int>
    decreases p.len(),
    via refs_of_decreases
{
    if p.len() == 0 {
        Set::empty()
    } else if placeholder_at_head(p) {
        let d = digit_run(p.skip(1));
        refs_of(p.skip(1 + d)).insert(digits_val(p.subrange(1, 1 + d)))
    } else {
        refs_of(p.skip(1))
    }
}

#[via_fn]
proof fn refs_of_decreases(p: Seq<char>) {
    if p.len() > 0 && placeholder_at_head(p) {
        lemma_digit_run_bounds(p.skip(1));
    }
}

/// Law: an output template none of whose positional references selects a
/// capture — each one is zero or beyond the capture count — resolves to
/// itself, character for character.
pub proof fn lemma_resolve_all_out_of_range(p: Seq<char>, caps: Seq<Seq<char>>)
    requires
        forall|n: int| #[trigger] refs_of(p).contains(n) ==> n < 1 || n > caps.len(),
    ensures
        resolve_spec(p, caps) == p,
    decreases p.len(),
{
    if p.len() == 0 {
        assert(resolve_spec(p, caps) =~= p);
    } else if placeholder_at_head(p) {
        lemma_digit_run_bounds(p.skip(1));
        let d = digit_run(p.skip(1));
        let n = digits_val(p.subrange(1, 1 + d));
        assert(refs_of(p).contains(n));
        assert forall|m: int| #[trigger] refs_of(p.skip(1 + d)).contains(m) implies m < 1 || m
            > caps.len() by {
            assert(refs_of(p).contains(m));
        }
        lemma_resolve_all_out_of_range(p.skip(1 + d), caps);
        assert(p.take(1 + d) + p.skip(1 + d) =~= p);
    } else {
        assert forall|m: int| #[trigger] refs_of(p.skip(1)).contains(m) implies m < 1 || m
            > caps.len() by {
            assert(refs_of(p).contains(m));
        }
        lemma_resolve_all_out_of_range(p.skip(1), caps);
        assert(seq![p[0]] + p.skip(1) =~= p);
    }
}

proof fn lemma_digit_run_is(t: Seq<char>, k: int)
    requires
        0 <= k <= t.len(),
        forall|m: int| 0 <= m < k ==> is_digit(#[trigger] t[m]),
        k < t.len() ==> !is_digit(t[k]),
    ensures
        digit_run(t) == k,
    decreases k,
{
    if k > 0 {
        assert forall|m: int| 0 <= m < k - 1 implies is_digit(#[trigger] t.skip(1)[m]) by {
            assert(t.skip(1)[m] == t[m + 1]);
        }
        if k - 1 < t.skip(1).len() {
            assert(t.skip(1)[k - 1] == t[k]);
        }
        lemma_digit_run_is(t.skip(1), k - 1);
    }
}

fn is_digit_exec(c: char) -> (b: bool)
    ensures
        b == is_digit(c),
{
    let cu = c as u32;
    48 <= cu && cu <= 57
}

/// Reads the digit run of the positional reference that starts at `i`.
/// Returns the position right after the run, and the value the digits
/// write, or `None` when that value does not fit a `usize`.
pub(crate) fn scan_placeholder(p: &str, i: usize) -> (res: (usize, Option<usize>))
    requires
        i + 1 < p@.len(),
        p@[i as int] == '#',
        is_digit(p@[i + 1]),
    ensures
        res.0 == i + 1 + digit_run(p@.skip(i as int + 1)),
        i + 1 < res.0 <= p@.len(),
        match res.1 {
            Some(v) => v == digits_val(p@.subrange(i as int + 1, res.0 as int)),
            None => digits_val(p@.subrange(i as int + 1, res.0 as int)) > usize::MAX,
        },
{
    let n = p.unicode_len();
    let mut j = i + 1;
    let mut val: usize = 0;
    let mut overflow = false;
    while j < n && is_digit_exec(p.get_char(j))
        invariant
            i + 1 <= j <= n,
            n == p@.len(),
            i + 1 < p@.len(),
            is_digit(p@[i + 1]),
            forall|m: int| i + 1 <= m < j ==> is_digit(#[trigger] p@[m]),
            if overflow {
                digits_val(p@.subrange(i as int + 1, j as int)) > usize::MAX
            } else {
                val == digits_val(p@.subrange(i as int + 1, j as int))
            },
        decreases n - j,
    {
        let c = p.get_char(j);
        let d = (c as u32 - 48) as usize;
        let ghost pre = p@.subrange(i as int + 1, j as int);
        let ghost cur = p@.subrange(i as int + 1, j as int + 1);
        proof {
            assert(cur.take(cur.len() - 1) =~= pre);
            assert(cur[cur.len() - 1] == p@[j as int]);
            assert(digits_val(cur) == digits_val(pre) * 10 + digit_val(p@[j as int]));
        }
        if !overflow {
            if val <= (usize::MAX - d) / 10 {
                val = val * 10 + d;
            } else {
                overflow = true;
            }
        } else {
            proof {
                assert(digits_val(pre) * 10 + digit_val(p@[j as int]) > usize::MAX);
            }
        }
        j = j + 1;
    }
    proof {
        let t = p@.skip(i as int + 1);
        assert forall|m: int| 0 <= m < j - (i + 1) implies is_digit(#[trigger] t[m]) by {
            assert(t[m] == p@[i + 1 + m]);
        }
        if j - (i + 1) < t.len() {
            assert(t[j - (i + 1)] == p@[j as int]);
        }
        lemma_digit_run_is(t, j - (i + 1));
    }
    if overflow {
        (j, None)
    } else {
        (j, Some(val))
    }
}

/// Substitutes the in-range positional references of the output template by
/// the captures they select and keeps everything else, zero and out-of-range
/// references included, character for character.
pub fn resolve_path_pattern(path_pattern: &str, captures: &Vec<String>) -> (r: String)
    ensures
        r@ == resolve_spec(path_pattern@, seq_views(captures@)),
{
    let ghost p = path_pattern@;
    let ghost caps = seq_views(captures@);
    let n = path_pattern.unicode_len();
    let clen = captures.len();
    let mut out = String::new();
    let mut i: usize = 0;
    proof {
        assert(p.skip(0) =~= p);
        assert(out@ + resolve_spec(p, caps) =~= resolve_spec(p, caps));
    }
    while i < n
        invariant
            0 <= i <= n,
            n == p.len(),
            p == path_pattern@,
            caps == seq_views(captures@),
            clen == captures@.len(),
            resolve_spec(p, caps) == out@ + resolve_spec(p.skip(i as int), caps),
        decreases n - i,
    {
        let ghost psuf = p.skip(i as int);
        let ghost out0 = out@;
        let c = path_pattern.get_char(i);
        let mut is_ph = false;
        if c == '#' && i + 1 < n {
            is_ph = is_digit_exec(path_pattern.get_char(i + 1));
        }
        proof {
            assert(psuf[0] == p[i as int]);
            if psuf.len() > 1 {
                assert(psuf[1] == p[i + 1]);
            }
            assert(is_ph == placeholder_at_head(psuf));
        }
        if is_ph {
            let (j, parsed) = scan_placeholder(path_pattern, i);
            let ghost d = digit_run(p.skip(i as int + 1));
            proof {
                assert(psuf.skip(1) =~= p.skip(i as int + 1));
                assert(psuf.subrange(1, 1 + d) =~= p.subrange(i as int + 1, j as int));
                assert(psuf.skip(1 + d) =~= p.skip(j as int));
                assert(psuf.take(1 + d) =~= p.subrange(i as int, j as int));
            }
            let ghost nv = digits_val(psuf.subrange(1, 1 + d));
            let mut in_range = false;
            let mut index: usize = 0;
            match parsed {
                Some(v) => {
                    if 1 <= v && v <= clen {
                        in_range = true;
                        index = v;
                    }
                },
                None => {
                    proof {
                        assert(nv > usize::MAX >= caps.len());
                    }
                },
            }
            proof {
                assert(in_range == (1 <= nv && nv <= caps.len()));
            }
            if in_range {
                out.append(captures[index - 1].as_str());
                proof {
                    assert(caps[nv - 1] == captures@[index - 1]@);
                    assert(out@ + resolve_spec(p.skip(j as int), caps) =~= out0 + (caps[nv - 1]
                        + resolve_spec(p.skip(j as int), caps)));
                }
            } else {
                let lit = path_pattern.substring_char(i, j);
                out.append(lit);
                proof {
                    assert(out@ + resolve_spec(p.skip(j as int), caps) =~= out0 + (psuf.take(1 + d)
                        + resolve_spec(p.skip(j as int), caps)));
                }
            }
            i = j;
        } else {
            let lit = path_pattern.substring_char(i, i + 1);
            out.append(lit);
            proof {
                assert(psuf.skip(1) =~= p.skip(i + 1));
                assert(lit@ =~= seq![psuf[0]]);
                assert(out@ + resolve_spec(p.skip(i + 1), caps) =~= out0 + (seq![psuf[0]]
                    + resolve_spec(p.skip(i + 1), caps)));
            }
            i = i + 1;
        }
    }
    proof {
        assert(p.skip(n as int) =~= Seq::<char>::empty());
        assert(out@ + resolve_spec(p.skip(n as int), caps) =~= out@);
    }
    out
}

} // verus!
