//! The template compiler and matcher: a wildcard-bearing path string is
//! tokenized into literal characters and wildcards, and a compiled template
//! matches a whole candidate path, capturing for each wildcard the maximal
//! run of non-separator characters that still lets the rest of the template
//! match.

use vstd::prelude::*;

verus! {

/// Shape errors of an input template, detected purely from the string.
#[derive(Debug, PartialEq, Eq, Structural)]
pub enum TemplateError {
    /// A wildcard marker stands in a non-final path segment.
    AsteriskInDirectory,
    /// Two adjacent wildcard markers.
    DoubleAsterisk,
}

/// One element of a compiled template: a literal character that the
/// candidate must carry verbatim, or a wildcard standing for a run of
/// non-separator characters.
#[derive(Clone, Copy, Debug, PartialEq, Eq, Structural)]
pub enum Token {
    Literal(char),
    Wildcard,
}

/// An unescaped wildcard marker stands at position `i`: a `*` that is not
/// directly preceded by a backslash.
pub open spec fn wildcard_at(s: Seq<char>, i: int) -> bool {
    &&& 0 <= i < s.len()
    &&& s[i] == '*'
    &&& (i == 0 || s[i - 1] != '\\')
}

/// Some unescaped wildcard stands in a directory part of the template, that
/// is, left of a later separator.
pub open spec fn asterisk_in_dir(s: Seq<char>) -> bool {
    exists|i: int, j: int| i < j < s.len() && s[j] == '/' && wildcard_at(s, i)
}

/// Two adjacent wildcard marker characters, escaped or not.
pub open spec fn double_asterisk(s: Seq<char>) -> bool {
    exists|i: int| 0 <= i && i + 1 < s.len() && #[trigger] s[i] == '*' && s[i + 1] == '*'
}

/// The token sequence of a template string: `\*` is a literal `*`, a bare
/// `*` is a wildcard, anything else (a lone backslash included) is a literal
/// character.
pub open spec fn tokens_of(s: Seq<char>) -> Seq<Token>
    decreases s.len(),
{
    if s.len() == 0 {
        Seq::empty()
    } else if s[0] == '\\' && s.len() >= 2 && s[1] == '*' {
        seq![Token::Literal('*')] + tokens_of(s.skip(2))
    } else if s[0] == '*' {
        seq![Token::Wildcard] + tokens_of(s.skip(1))
    } else {
        seq![Token::Literal(s[0])] + tokens_of(s.skip(1))
    }
}

/// How many wildcards a token sequence holds, one per capture.
pub open spec fn count_wild(toks: Seq<Token>) -> nat
    decreases toks.len(),
{
    if toks.len() == 0 {
        0
    } else {
        (if toks[0] is Wildcard {
            1nat
        } else {
            0nat
        }) + count_wild(toks.skip(1))
    }
}

/// The distance to the first separator of `s`, or `s.len()` when none: a
/// wildcard capture can reach at most this far.
pub open spec fn first_sep(s: Seq<char>) -> int
    decreases s.len(),
{
    if s.len() == 0 {
        0
    } else if s[0] == '/' {
        0
    } else {
        1 + first_sep(s.skip(1))
    }
}

/// Anchored greedy match of a token sequence against a whole candidate
/// string: `None` when the candidate does not fit the template, otherwise
/// the captures, one per wildcard in order. Each wildcard takes the longest
/// separator-free run that still lets the rest of the template match.
pub open spec fn glob_match(toks: Seq<Token>, s: Seq<char>) -> Option<Seq<Seq<char>>>
    decreases toks.len(), 0int,
{
    if toks.len() == 0 {
        if s.len() == 0 {
            Some(Seq::empty())
        } else {
            None
        }
    } else {
        match toks[0] {
            Token::Literal(c) => if s.len() > 0 && s[0] == c {
                glob_match(toks.skip(1), s.skip(1))
            } else {
                None
            },
            Token::Wildcard => wild_try(toks.skip(1), s, first_sep(s)),
        }
    }
}

/// Greedy backtracking for one wildcard: try a capture of `k` characters,
/// and on failure retry with shorter captures down to the empty one.
pub open spec fn wild_try(rest: Seq<Token>, s: Seq<char>, k: int) -> Option<Seq<Seq<char>>>
    decreases rest.len(), k + 1,
{
    if k < 0 || k > s.len() {
        None
    } else {
        match glob_match(rest, s.skip(k)) {
            Some(caps) => Some(seq![s.take(k)] + caps),
            None => wild_try(rest, s, k - 1),
        }
    }
}

/// The views of a sequence of owned strings.
pub open spec fn seq_views(v: Seq<String>) -> Seq<Seq<char>> {
    Seq::new(v.len(), |i: int| v[i]@)
}

/// A validated input template compiled to its token sequence. The view of a
/// `Template` is that token sequence.
pub struct Template {
    tokens: Vec<Token>,
}

impl View for Template {
    type V = Seq<Token>;

    closed spec fn view(&self) -> Seq<Token> {
        self.tokens@
    }
}

impl Template {
    /// Compiles a template string. Fails exactly when an unescaped wildcard
    /// stands in a directory segment, or when two wildcard markers are
    /// adjacent; the directory check is made first.
    pub fn new(pattern: &str) -> (r: Result<Template, TemplateError>)
        ensures
            match r {
                Ok(t) => !asterisk_in_dir(pattern@) && !double_asterisk(pattern@) && t@
                    == tokens_of(pattern@),
                Err(TemplateError::AsteriskInDirectory) => asterisk_in_dir(pattern@),
                Err(TemplateError::DoubleAsterisk) => !asterisk_in_dir(pattern@)
                    && double_asterisk(pattern@),
            },
    {
        let n = pattern.unicode_len();
        let mut idx: usize = 0;
        let mut seen_wild = false;
        let mut ast_in_dir = false;
        let mut doubled = false;
        while idx < n
            invariant
                0 <= idx <= n,
                n == pattern@.len(),
                seen_wild == exists|i: int| 0 <= i < idx && wildcard_at(pattern@, i),
                ast_in_dir == exists|i: int, j: int|
                    i < j < idx && pattern@[j] == '/' && wildcard_at(pattern@, i),
                doubled == exists|i: int|
                    0 <= i && i + 1 < idx && #[trigger] pattern@[i] == '*' && pattern@[i + 1]
                        == '*',
            decreases n - idx,
        {
            let c = pattern.get_char(idx);
            if c == '*' && (idx == 0 || pattern.get_char(idx - 1) != '\\') {
                proof {
                    assert(wildcard_at(pattern@, idx as int));
                }
                seen_wild = true;
            }
            if c == '/' && seen_wild {
                ast_in_dir = true;
            }
            if c == '*' && idx > 0 && pattern.get_char(idx - 1) == '*' {
                proof {
                    let i = idx - 1;
                    assert(pattern@[i] == '*' && pattern@[i + 1] == '*');
                }
                doubled = true;
            }
            idx = idx + 1;
        }
        if ast_in_dir {
            return Err(TemplateError::AsteriskInDirectory);
        }
        if doubled {
            return Err(TemplateError::DoubleAsterisk);
        }
        Ok(Template { tokens: tokenize(pattern) })
    }

    /// Matches a whole candidate path against the compiled template and
    /// returns the ordered captures, one per wildcard, or `None` when the
    /// candidate does not match. The result is a function of the template
    /// and the candidate alone, so re-running a match on the same candidate
    /// yields the same captures.
    pub fn captures(&self, string: &str) -> (r: Option<Vec<String>>)
        ensures
            r is Some <==> glob_match(self@, string@) is Some,
            r is Some ==> seq_views(r.unwrap()@) == glob_match(self@, string@).unwrap(),
    {
        proof {
            assert(self.tokens@.skip(0) =~= self.tokens@);
            assert(string@.skip(0) =~= string@);
        }
        match_from(&self.tokens, 0, string, 0)
    }
}

/// Turns a template string into its token sequence, one pass left to right.
pub(crate) fn tokenize(pattern: &str) -> (toks: Vec<Token>)
    ensures
        toks@ == tokens_of(pattern@),
{
    let n = pattern.unicode_len();
    let mut toks: Vec<Token> = Vec::new();
    let mut i: usize = 0;
    proof {
        assert(pattern@.skip(0) =~= pattern@);
        assert(toks@ + tokens_of(pattern@) =~= tokens_of(pattern@));
    }
    while i < n
        invariant
            0 <= i <= n,
            n == pattern@.len(),
            tokens_of(pattern@) == toks@ + tokens_of(pattern@.skip(i as int)),
        decreases n - i,
    {
        let ghost prev = toks@;
        let c = pattern.get_char(i);
        if c == '\\' && i + 1 < n && pattern.get_char(i + 1) == '*' {
            toks.push(Token::Literal('*'));
            proof {
                assert(pattern@.skip(i as int).skip(2) =~= pattern@.skip(i + 2));
                assert(toks@ + tokens_of(pattern@.skip(i + 2)) =~= prev + tokens_of(
                    pattern@.skip(i as int),
                ));
            }
            i = i + 2;
        } else {
            if c == '*' {
                toks.push(Token::Wildcard);
            } else {
                toks.push(Token::Literal(c));
            }
            proof {
                assert(pattern@.skip(i as int).skip(1) =~= pattern@.skip(i + 1));
                assert(toks@ + tokens_of(pattern@.skip(i + 1)) =~= prev + tokens_of(
                    pattern@.skip(i as int),
                ));
            }
            i = i + 1;
        }
    }
    proof {
        assert(pattern@.skip(n as int) =~= Seq::<char>::empty());
        assert(toks@ + tokens_of(pattern@.skip(n as int)) =~= toks@);
    }
    toks
}

/// Law: a successful match yields exactly one capture per wildcard of the
/// template, whatever the candidate string was.
pub proof fn lemma_match_capture_count(toks: Seq<Token>, s: Seq<char>)
    requires
        glob_match(toks, s) is Some,
    ensures
        glob_match(toks, s).unwrap().len() == count_wild(toks),
    decreases toks.len(), 0int,
{
    if toks.len() > 0 {
        match toks[0] {
            Token::Literal(c) => {
                lemma_match_capture_count(toks.skip(1), s.skip(1));
            },
            Token::Wildcard => {
                lemma_wild_try_capture_count(toks.skip(1), s, first_sep(s));
            },
        }
    }
}

proof fn lemma_wild_try_capture_count(rest: Seq<Token>, s: Seq<char>, k: int)
    requires
        wild_try(rest, s, k) is Some,
    ensures
        wild_try(rest, s, k).unwrap().len() == 1 + count_wild(rest),
    decreases rest.len(), k + 1,
{
    if !(k < 0 || k > s.len()) {
        match glob_match(rest, s.skip(k)) {
            Some(_) => {
                lemma_match_capture_count(rest, s.skip(k));
            },
            None => {
                lemma_wild_try_capture_count(rest, s, k - 1);
            },
        }
    }
}

/// The candidate a token sequence describes once each wildcard is filled
/// with its capture, captures taken in order.
pub open spec fn filled(toks: Seq<Token>, caps: Seq<Seq<char>>) -> Seq<char>
    decreases toks.len(),
{
    if toks.len() == 0 {
        Seq::empty()
    } else {
        match toks[0] {
            Token::Literal(c) => seq![c] + filled(toks.skip(1), caps),
            Token::Wildcard => caps.first() + filled(toks.skip(1), caps.skip(1)),
        }
    }
}

/// Law: the match is anchored at both ends. Filling the template's
/// wildcards with the captures of a successful match reassembles the whole
/// candidate string exactly, so partial matches never count.
pub proof fn lemma_match_reassembles(toks: Seq<Token>, s: Seq<char>)
    requires
        glob_match(toks, s) is Some,
    ensures
        filled(toks, glob_match(toks, s).unwrap()) == s,
    decreases toks.len(), 0int,
{
    if toks.len() == 0 {
        assert(filled(toks, glob_match(toks, s).unwrap()) =~= s);
    } else {
        match toks[0] {
            Token::Literal(c) => {
                lemma_match_reassembles(toks.skip(1), s.skip(1));
                assert(filled(toks, glob_match(toks, s).unwrap()) =~= seq![s[0]] + s.skip(1));
                assert(seq![s[0]] + s.skip(1) =~= s);
            },
            Token::Wildcard => {
                lemma_wild_reassembles(toks.skip(1), s, first_sep(s));
            },
        }
    }
}

proof fn lemma_wild_reassembles(rest: Seq<Token>, s: Seq<char>, k: int)
    requires
        wild_try(rest, s, k) is Some,
    ensures
        wild_try(rest, s, k).unwrap().len() > 0,
        wild_try(rest, s, k).unwrap().first() + filled(
            rest,
            wild_try(rest, s, k).unwrap().skip(1),
        ) == s,
    decreases rest.len(), k + 1,
{
    if !(k < 0 || k > s.len()) {
        match glob_match(rest, s.skip(k)) {
            Some(tail) => {
                lemma_match_reassembles(rest, s.skip(k));
                let out = wild_try(rest, s, k).unwrap();
                assert(out.skip(1) =~= tail);
                assert(out.first() + filled(rest, tail) =~= s.take(k) + s.skip(k));
                assert(s.take(k) + s.skip(k) =~= s);
            },
            None => {
                lemma_wild_reassembles(rest, s, k - 1);
            },
        }
    }
}

/// Law: matching is deterministic. The captures of a candidate are a
/// function of the template's tokens and the candidate alone, so re-running
/// a match on the same candidate yields the same result.
pub proof fn lemma_match_deterministic(
    toks: Seq<Token>,
    s: Seq<char>,
    r1: Option<Seq<Seq<char>>>,
    r2: Option<Seq<Seq<char>>>,
)
    requires
        r1 == glob_match(toks, s),
        r2 == glob_match(toks, s),
    ensures
        r1 == r2,
{
}

proof fn lemma_first_sep_bound(s: Seq<char>)
    ensures
        0 <= first_sep(s) <= s.len(),
        forall|m: int| 0 <= m < first_sep(s) ==> s[m] != '/',
    decreases s.len(),
{
    if s.len() > 0 && s[0] != '/' {
        lemma_first_sep_bound(s.skip(1));
        assert forall|m: int| 0 <= m < first_sep(s) implies s[m] != '/' by {
            if m > 0 {
                assert(s.skip(1)[m - 1] != '/');
            }
        }
    }
}

/// Law: every capture of a successful match is a run of non-separator
/// characters: a wildcard never matches across `/`.
pub proof fn lemma_captures_no_separator(toks: Seq<Token>, s: Seq<char>)
    requires
        glob_match(toks, s) is Some,
    ensures
        forall|i: int, j: int|
            0 <= i < glob_match(toks, s).unwrap().len() && 0 <= j < glob_match(
                toks,
                s,
            ).unwrap()[i].len() ==> #[trigger] glob_match(toks, s).unwrap()[i][j] != '/',
    decreases toks.len(), 0int,
{
    if toks.len() > 0 {
        match toks[0] {
            Token::Literal(c) => {
                lemma_captures_no_separator(toks.skip(1), s.skip(1));
            },
            Token::Wildcard => {
                lemma_first_sep_bound(s);
                lemma_wild_no_separator(toks.skip(1), s, first_sep(s));
            },
        }
    }
}

proof fn lemma_wild_no_separator(rest: Seq<Token>, s: Seq<char>, k: int)
    requires
        wild_try(rest, s, k) is Some,
        k <= first_sep(s),
    ensures
        forall|i: int, j: int|
            0 <= i < wild_try(rest, s, k).unwrap().len() && 0 <= j < wild_try(
                rest,
                s,
                k,
            ).unwrap()[i].len() ==> #[trigger] wild_try(rest, s, k).unwrap()[i][j] != '/',
    decreases rest.len(), k + 1,
{
    lemma_first_sep_bound(s);
    if !(k < 0 || k > s.len()) {
        match glob_match(rest, s.skip(k)) {
            Some(_) => {
                lemma_captures_no_separator(rest, s.skip(k));
                let out = wild_try(rest, s, k).unwrap();
                let tail = glob_match(rest, s.skip(k)).unwrap();
                assert forall|i: int, j: int|
                    0 <= i < out.len() && 0 <= j < out[i].len() implies #[trigger] out[i][j]
                    != '/' by {
                    if i == 0 {
                        assert(out[0][j] == s[j]);
                    } else {
                        assert(out[i] == tail[i - 1]);
                    }
                }
            },
            None => {
                lemma_wild_no_separator(rest, s, k - 1);
            },
        }
    }
}

proof fn lemma_first_sep_is(t: Seq<char>, k: int)
    requires
        0 <= k <= t.len(),
        forall|m: int| 0 <= m < k ==> t[m] != '/',
        k < t.len() ==> t[k] == '/',
    ensures
        first_sep(t) == k,
    decreases k,
{
    if k > 0 {
        assert forall|m: int| 0 <= m < k - 1 implies t.skip(1)[m] != '/' by {
            assert(t.skip(1)[m] == t[m + 1]);
        }
        if k - 1 < t.skip(1).len() {
            assert(t.skip(1)[k - 1] == t[k]);
        }
        lemma_first_sep_is(t.skip(1), k - 1);
    }
}

fn match_from(tokens: &Vec<Token>, ti: usize, s: &str, si: usize) -> (r: Option<Vec<String>>)
    requires
        ti <= tokens@.len(),
        si <= s@.len(),
    ensures
        r is Some <==> glob_match(tokens@.skip(ti as int), s@.skip(si as int)) is Some,
        r is Some ==> seq_views(r.unwrap()@) == glob_match(
            tokens@.skip(ti as int),
            s@.skip(si as int),
        ).unwrap(),
    decreases tokens@.len() - ti,
{
    let ghost toks_suf = tokens@.skip(ti as int);
    let ghost s_suf = s@.skip(si as int);
    let n = s.unicode_len();
    if ti == tokens.len() {
        if si == n {
            let caps: Vec<String> = Vec::new();
            proof {
                assert(seq_views(caps@) =~= Seq::<Seq<char>>::empty());
            }
            Some(caps)
        } else {
            None
        }
    } else {
        let tok = tokens[ti];
        proof {
            assert(toks_suf[0] == tokens@[ti as int]);
            assert(toks_suf.skip(1) =~= tokens@.skip(ti as int + 1));
        }
        match tok {
            Token::Literal(c) => {
                if si < n && s.get_char(si) == c {
                    proof {
                        assert(s_suf[0] == s@[si as int]);
                        assert(s_suf.skip(1) =~= s@.skip(si as int + 1));
                    }
                    match_from(tokens, ti + 1, s, si + 1)
                } else {
                    None
                }
            },
            Token::Wildcard => {
                let mut j = si;
                while j < n && s.get_char(j) != '/'
                    invariant
                        si <= j <= n,
                        n == s@.len(),
                        forall|m: int| si <= m < j ==> s@[m] != '/',
                    decreases n - j,
                {
                    j = j + 1;
                }
                let kmax = j - si;
                proof {
                    assert forall|m: int| 0 <= m < kmax implies s_suf[m] != '/' by {
                        assert(s_suf[m] == s@[si + m]);
                    }
                    if kmax < s_suf.len() {
                        assert(s_suf[kmax as int] == s@[j as int]);
                    }
                    lemma_first_sep_is(s_suf, kmax as int);
                }
                let ghost rest = tokens@.skip(ti as int + 1);
                let mut k = kmax;
                loop
                    invariant
                        0 <= k <= kmax,
                        si + kmax <= n,
                        ti < tokens@.len() <= usize::MAX,
                        si <= n == s@.len(),
                        toks_suf == tokens@.skip(ti as int),
                        s_suf == s@.skip(si as int),
                        rest == tokens@.skip(ti as int + 1),
                        glob_match(toks_suf, s_suf) == wild_try(rest, s_suf, k as int),
                    decreases k,
                {
                    proof {
                        assert(s_suf.skip(k as int) =~= s@.skip(si + k));
                    }
                    let r = match_from(tokens, ti + 1, s, si + k);
                    match r {
                        Some(mut caps) => {
                            let ghost old_caps = caps@;
                            let cap = s.substring_char(si, si + k).to_owned();
                            caps.insert(0, cap);
                            proof {
                                assert(cap@ =~= s_suf.take(k as int));
                                assert(seq_views(caps@) =~= seq![cap@] + seq_views(old_caps));
                            }
                            return Some(caps);
                        },
                        None => {
                            if k == 0 {
                                proof {
                                    assert(wild_try(rest, s_suf, -1) is None);
                                    assert(wild_try(rest, s_suf, 0) is None);
                                }
                                return None;
                            }
                            k = k - 1;
                        },
                    }
                }
            },
        }
    }
}

} // verus!
