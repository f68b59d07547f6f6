//! The capture-count validator and the batch planner: the validator checks
//! that an output template references every wildcard of the input template;
//! the planner matches each candidate path, resolves its destination, and
//! applies the conflict policy to the destination statuses, producing either
//! the full rename plan or the first conflict.

use crate::errors::TfrError;
use crate::file_template::asterisk_in_dir;
use crate::file_template::count_wild;
use crate::file_template::double_asterisk;
use crate::file_template::glob_match;
use crate::file_template::seq_views;
use crate::file_template::tokenize;
use crate::file_template::tokens_of;
use crate::file_template::Template;
use crate::file_template::Token;
use crate::rename_mod::ActionWhenRenamedFilePathExists;
use crate::resolve_path_pattern::placeholder_at_head;
use crate::resolve_path_pattern::refs_of;
use crate::resolve_path_pattern::resolve_path_pattern;
use crate::resolve_path_pattern::resolve_spec;
use crate::resolve_path_pattern::scan_placeholder;
use vstd::prelude::*;

verus! {

/// What the filesystem holds at a resolved destination path: nothing, a
/// regular file, or any other node (a directory among them).
#[derive(Clone, Copy, Debug, PartialEq, Eq, Structural)]
pub enum PathStatus {
    Missing,
    File,
    Other,
}

/// The output template covers the input template: every wildcard position,
/// 1 up to the wildcard count, is referenced by at least one placeholder.
/// Out-of-range references are permitted and play no part.
pub open spec fn output_covers(input: Seq<char>, output: Seq<char>) -> bool {
    forall|x: int|
        1 <= x <= count_wild(tokens_of(input)) ==> #[trigger] refs_of(output).contains(x)
}

/// The views of a sequence of owned string pairs.
pub open spec fn pair_views(v: Seq<(String, String)>) -> Seq<(Seq<char>, Seq<char>)> {
    Seq::new(v.len(), |i: int| (v[i].0@, v[i].1@))
}

/// The source and destination of every candidate that matches the template,
/// in candidate order: the destination is the output template resolved with
/// the candidate's captures.
pub open spec fn pairs_spec(
    toks: Seq<Token>,
    output: Seq<char>,
    cands: Seq<Seq<char>>,
) -> Seq<(Seq<char>, Seq<char>)>
    decreases cands.len(),
{
    if cands.len() == 0 {
        Seq::empty()
    } else {
        let rest = pairs_spec(toks, output, cands.skip(1));
        match glob_match(toks, cands[0]) {
            Some(caps) => seq![(cands[0], resolve_spec(output, caps))] + rest,
            None => rest,
        }
    }
}

/// A destination with this status stops the whole batch: any non-file node,
/// and an existing file under the terminating policy.
pub open spec fn conflict_at(st: PathStatus, mode: ActionWhenRenamedFilePathExists) -> bool {
    st is Other || (st is File && mode is Terminate)
}

/// A pair with this destination status stays in the plan: a free path, and
/// an existing file under the overwriting policy.
pub open spec fn keep_at(st: PathStatus, mode: ActionWhenRenamedFilePathExists) -> bool {
    st is Missing || (st is File && mode is Overwrite)
}

/// The first conflicting destination in pair order, with whether the
/// existing node is a regular file, or `None` when the policy accepts every
/// destination.
pub open spec fn first_conflict(
    pairs: Seq<(Seq<char>, Seq<char>)>,
    sts: Seq<PathStatus>,
    mode: ActionWhenRenamedFilePathExists,
) -> Option<(Seq<char>, bool)>
    decreases sts.len(),
{
    if sts.len() == 0 || pairs.len() == 0 {
        None
    } else if conflict_at(sts[0], mode) {
        Some((pairs[0].1, sts[0] is File))
    } else {
        first_conflict(pairs.skip(1), sts.skip(1), mode)
    }
}

/// The pairs the policy keeps, in order.
pub open spec fn plan_spec(
    pairs: Seq<(Seq<char>, Seq<char>)>,
    sts: Seq<PathStatus>,
    mode: ActionWhenRenamedFilePathExists,
) -> Seq<(Seq<char>, Seq<char>)>
    decreases pairs.len(),
{
    if pairs.len() == 0 || sts.len() == 0 {
        Seq::empty()
    } else {
        let rest = plan_spec(pairs.skip(1), sts.skip(1), mode);
        if keep_at(sts[0], mode) {
            seq![pairs[0]] + rest
        } else {
            rest
        }
    }
}

/// Accepts the template pair exactly when every wildcard position of the
/// input template, 1 up to its wildcard count, is referenced by at least one
/// placeholder of the output template; extra and out-of-range references are
/// ignored.
pub fn is_rename_template_correct(
    input_file_template: &str,
    output_file_template: &str,
) -> (r: bool)
    ensures
        r == output_covers(input_file_template@, output_file_template@),
{
    let toks = tokenize(input_file_template);
    let mut wild_count: usize = 0;
    let mut t: usize = 0;
    proof {
        assert(toks@.skip(0) =~= toks@);
    }
    while t < toks.len()
        invariant
            0 <= t <= toks@.len(),
            wild_count <= t,
            toks@ == tokens_of(input_file_template@),
            wild_count + count_wild(toks@.skip(t as int)) == count_wild(toks@),
        decreases toks@.len() - t,
    {
        proof {
            assert(toks@.skip(t as int)[0] == toks@[t as int]);
            assert(toks@.skip(t as int).skip(1) =~= toks@.skip(t as int + 1));
        }
        match toks[t] {
            Token::Wildcard => {
                wild_count = wild_count + 1;
            },
            Token::Literal(_) => {},
        }
        t = t + 1;
    }
    proof {
        assert(toks@.skip(toks@.len() as int) =~= Seq::<Token>::empty());
    }
    let k = wild_count;
    let ghost p = output_file_template@;
    let mut seen: Vec<bool> = Vec::new();
    let mut f: usize = 0;
    while f < k
        invariant
            seen@.len() == f <= k,
            forall|m: int| 0 <= m < f ==> !(#[trigger] seen@[m]),
        decreases k - f,
    {
        seen.push(false);
        f = f + 1;
    }
    let n = output_file_template.unicode_len();
    let mut i: usize = 0;
    proof {
        assert(p.skip(0) =~= p);
    }
    while i < n
        invariant
            0 <= i <= n,
            n == p.len(),
            p == output_file_template@,
            seen@.len() == k,
            k == count_wild(tokens_of(input_file_template@)),
            forall|x: int|
                1 <= x <= k ==> (#[trigger] refs_of(p).contains(x) <==> (seen@[x - 1] || refs_of(
                    p.skip(i as int),
                ).contains(x))),
        decreases n - i,
    {
        let ghost psuf = p.skip(i as int);
        let c = output_file_template.get_char(i);
        let mut is_ph = false;
        if c == '#' && i + 1 < n {
            let c1 = output_file_template.get_char(i + 1);
            let cu = c1 as u32;
            is_ph = 48 <= cu && cu <= 57;
        }
        proof {
            assert(psuf[0] == p[i as int]);
            if psuf.len() > 1 {
                assert(psuf[1] == p[i + 1]);
            }
            assert(is_ph == placeholder_at_head(psuf));
        }
        if is_ph {
            let (j, parsed) = scan_placeholder(output_file_template, i);
            let ghost d = crate::resolve_path_pattern::digit_run(p.skip(i as int + 1));
            proof {
                assert(psuf.skip(1) =~= p.skip(i as int + 1));
                assert(psuf.subrange(1, 1 + d) =~= p.subrange(i as int + 1, j as int));
                assert(psuf.skip(1 + d) =~= p.skip(j as int));
            }
            let ghost nv = crate::resolve_path_pattern::digits_val(psuf.subrange(1, 1 + d));
            match parsed {
                Some(v) => {
                    if 1 <= v && v <= k {
                        seen[v - 1] = true;
                    }
                },
                None => {
                    proof {
                        assert(nv > usize::MAX >= k);
                    }
                },
            }
            i = j;
        } else {
            proof {
                assert(psuf.skip(1) =~= p.skip(i + 1));
            }
            i = i + 1;
        }
    }
    proof {
        assert(p.skip(n as int) =~= Seq::<char>::empty());
    }
    let mut all = true;
    let mut x: usize = 0;
    while x < k
        invariant
            0 <= x <= k,
            seen@.len() == k,
            k == count_wild(tokens_of(input_file_template@)),
            forall|y: int| 1 <= y <= k ==> (#[trigger] refs_of(p).contains(y) <==> seen@[y - 1]),
            p == output_file_template@,
            all == forall|y: int| 1 <= y <= x ==> #[trigger] refs_of(p).contains(y),
        decreases k - x,
    {
        if !seen[x] {
            all = false;
            proof {
                assert(!refs_of(p).contains(x + 1));
            }
        }
        x = x + 1;
    }
    all
}

/// Validates the output template against the input template's wildcard
/// count, compiles the input template, and returns the source and resolved
/// destination of every matching candidate, in candidate order. The output
/// template is checked first, before the input template's shape.
pub fn apply_template(
    input_file_template: &str,
    output_file_template: &str,
    candidates: &Vec<String>,
) -> (r: Result<Vec<(String, String)>, TfrError>)
    ensures
        match r {
            Ok(pairs) => {
                &&& output_covers(input_file_template@, output_file_template@)
                &&& !asterisk_in_dir(input_file_template@)
                &&& !double_asterisk(input_file_template@)
                &&& pair_views(pairs@) == pairs_spec(
                    tokens_of(input_file_template@),
                    output_file_template@,
                    seq_views(candidates@),
                )
            },
            Err(TfrError::IncorrectOutputTemplate(_)) => !output_covers(
                input_file_template@,
                output_file_template@,
            ),
            Err(TfrError::IncorrectInputTemplate(_)) => {
                &&& output_covers(input_file_template@, output_file_template@)
                &&& (asterisk_in_dir(input_file_template@) || double_asterisk(
                    input_file_template@,
                ))
            },
            _ => false,
        },
{
    if !is_rename_template_correct(input_file_template, output_file_template) {
        return Err(
            TfrError::IncorrectOutputTemplate(
                "Output template flags does not cover input template asterisks",
            ),
        );
    }
    let template = match Template::new(input_file_template) {
        Ok(t) => t,
        Err(e) => {
            return Err(TfrError::from(e));
        },
    };
    let ghost toks = tokens_of(input_file_template@);
    let ghost cviews = seq_views(candidates@);
    let ghost outp = output_file_template@;
    let mut pairs: Vec<(String, String)> = Vec::new();
    let mut idx: usize = 0;
    proof {
        assert(cviews.skip(0) =~= cviews);
        assert(pair_views(pairs@) =~= Seq::<(Seq<char>, Seq<char>)>::empty());
        assert(pair_views(pairs@) + pairs_spec(toks, outp, cviews) =~= pairs_spec(
            toks,
            outp,
            cviews,
        ));
    }
    while idx < candidates.len()
        invariant
            0 <= idx <= candidates@.len(),
            template@ == toks,
            toks == tokens_of(input_file_template@),
            outp == output_file_template@,
            cviews == seq_views(candidates@),
            pairs_spec(toks, outp, cviews) == pair_views(pairs@) + pairs_spec(
                toks,
                outp,
                cviews.skip(idx as int),
            ),
        decreases candidates@.len() - idx,
    {
        let ghost prev = pair_views(pairs@);
        proof {
            assert(cviews.skip(idx as int)[0] == cviews[idx as int]);
            assert(cviews[idx as int] == candidates@[idx as int]@);
            assert(cviews.skip(idx as int).skip(1) =~= cviews.skip(idx as int + 1));
        }
        let cand: &String = &candidates[idx];
        match template.captures(cand.as_str()) {
            Some(caps) => {
                let dest = resolve_path_pattern(output_file_template, &caps);
                let src = cand.clone();
                pairs.push((src, dest));
                proof {
                    assert(pair_views(pairs@) =~= prev + seq![(cand@, dest@)]);
                    assert(pair_views(pairs@) + pairs_spec(toks, outp, cviews.skip(idx as int + 1))
                        =~= prev + pairs_spec(toks, outp, cviews.skip(idx as int)));
                }
            },
            None => {},
        }
        idx = idx + 1;
    }
    proof {
        assert(cviews.skip(candidates@.len() as int) =~= Seq::<Seq<char>>::empty());
        assert(pair_views(pairs@) + pairs_spec(
            toks,
            outp,
            cviews.skip(candidates@.len() as int),
        ) =~= pair_views(pairs@));
    }
    Ok(pairs)
}

/// Applies the conflict policy to the matched pairs, whose destination
/// statuses the caller has looked up, one status per pair in the same
/// order. Returns the kept pairs, or the first conflicting destination.
pub fn apply_policy(
    pairs: &Vec<(String, String)>,
    statuses: &Vec<PathStatus>,
    rename_mod: &ActionWhenRenamedFilePathExists,
) -> (r: Result<Vec<(String, String)>, TfrError>)
    requires
        pairs@.len() == statuses@.len(),
    ensures
        match r {
            Ok(plan) => {
                &&& first_conflict(pair_views(pairs@), statuses@, *rename_mod) is None
                &&& pair_views(plan@) == plan_spec(pair_views(pairs@), statuses@, *rename_mod)
            },
            Err(TfrError::ExistingPath(pth, is_file)) => first_conflict(
                pair_views(pairs@),
                statuses@,
                *rename_mod,
            ) == Some((pth@, is_file)),
            _ => false,
        },
{
    let ghost pv = pair_views(pairs@);
    let ghost sts = statuses@;
    let mode = *rename_mod;
    let mut kept: Vec<(String, String)> = Vec::new();
    let mut conflict: Option<(String, bool)> = None;
    let mut i: usize = 0;
    proof {
        assert(pv.skip(0) =~= pv);
        assert(sts.skip(0) =~= sts);
        assert(pair_views(kept@) =~= Seq::<(Seq<char>, Seq<char>)>::empty());
        assert(pair_views(kept@) + plan_spec(pv, sts, mode) =~= plan_spec(pv, sts, mode));
    }
    while i < pairs.len()
        invariant
            0 <= i <= pairs@.len(),
            pairs@.len() == statuses@.len(),
            pv == pair_views(pairs@),
            sts == statuses@,
            mode == *rename_mod,
            plan_spec(pv, sts, mode) == pair_views(kept@) + plan_spec(
                pv.skip(i as int),
                sts.skip(i as int),
                mode,
            ),
            match conflict {
                None => first_conflict(pv, sts, mode) == first_conflict(
                    pv.skip(i as int),
                    sts.skip(i as int),
                    mode,
                ),
                Some(c) => first_conflict(pv, sts, mode) == Some((c.0@, c.1)),
            },
        decreases pairs@.len() - i,
    {
        let ghost prev = pair_views(kept@);
        proof {
            assert(pv.skip(i as int)[0] == pv[i as int]);
            assert(pv[i as int] == (pairs@[i as int].0@, pairs@[i as int].1@));
            assert(sts.skip(i as int)[0] == sts[i as int]);
            assert(pv.skip(i as int).skip(1) =~= pv.skip(i as int + 1));
            assert(sts.skip(i as int).skip(1) =~= sts.skip(i as int + 1));
        }
        let st = statuses[i];
        let is_conflict = match st {
            PathStatus::Other => true,
            PathStatus::File => mode == ActionWhenRenamedFilePathExists::Terminate,
            PathStatus::Missing => false,
        };
        if is_conflict {
            if conflict.is_none() {
                conflict = Some((pairs[i].1.clone(), matches!(st, PathStatus::File)));
            }
        }
        let is_kept = match st {
            PathStatus::Missing => true,
            PathStatus::File => mode == ActionWhenRenamedFilePathExists::Overwrite,
            PathStatus::Other => false,
        };
        if is_kept {
            kept.push((pairs[i].0.clone(), pairs[i].1.clone()));
            proof {
                assert(pair_views(kept@) =~= prev + seq![pv[i as int]]);
                assert(pair_views(kept@) + plan_spec(
                    pv.skip(i as int + 1),
                    sts.skip(i as int + 1),
                    mode,
                ) =~= prev + plan_spec(pv.skip(i as int), sts.skip(i as int), mode));
            }
        }
        i = i + 1;
    }
    proof {
        let len = pairs@.len() as int;
        assert(pv.skip(len) =~= Seq::<(Seq<char>, Seq<char>)>::empty());
        assert(sts.skip(len) =~= Seq::<PathStatus>::empty());
        assert(pair_views(kept@) + plan_spec(pv.skip(len), sts.skip(len), mode) =~= pair_views(
            kept@,
        ));
    }
    match conflict {
        Some(c) => Err(TfrError::ExistingPath(c.0, c.1)),
        None => Ok(kept),
    }
}

} // verus!
