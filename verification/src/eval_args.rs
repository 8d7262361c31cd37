//! The arguments of the search-quality evaluation command.
//!
//! Threshold values are checked against the grammar of floating-point
//! literals here and read as numbers by the command itself.
use vstd::prelude::*;
use crate::get_file::all_digits;
use crate::sorted::views;
use crate::text::str_eq;

verus! {

/// Why an integer argument is invalid, as `str::parse::<usize>` reports it.
#[derive(Clone, Copy, Debug, PartialEq, Eq, Structural)]
pub enum IntError {
    /// The text is empty.
    Empty,
    /// A character is not a digit.
    InvalidDigit,
    /// The value does not fit.
    Overflow,
}

/// Whether `c` is a decimal digit.
pub open spec fn is_digit(c: char) -> bool {
    '0' <= c && c <= '9'
}

/// The result of reading a decimal number from `d` left to right, starting
/// from `acc`: the first character that is not a digit, or the first step
/// past `u64::MAX`, is the error.
pub open spec fn read_digits(d: Seq<char>, acc: nat) -> Result<nat, IntError>
    decreases d.len(),
{
    if d.len() == 0 {
        Ok(acc)
    } else if !is_digit(d[0]) {
        Err(IntError::InvalidDigit)
    } else if acc * 10 + (d[0] as nat - '0' as nat) > u64::MAX {
        Err(IntError::Overflow)
    } else {
        read_digits(d.drop_first(), acc * 10 + (d[0] as nat - '0' as nat) as nat)
    }
}

/// What `str::parse::<u64>` gives for `s`: an empty text is empty; a lone
/// sign is an invalid digit; a leading `+` is dropped; the digits are then
/// read left to right.
pub open spec fn parse_count_spec(s: Seq<char>) -> Result<nat, IntError> {
    if s.len() == 0 {
        Err(IntError::Empty)
    } else if s.len() == 1 && (s[0] == '+' || s[0] == '-') {
        Err(IntError::InvalidDigit)
    } else if s[0] == '+' {
        read_digits(s.drop_first(), 0)
    } else {
        read_digits(s, 0)
    }
}

/// Reads a count the way `str::parse::<usize>` does on a 64-bit target.
pub fn parse_count(s: &str) -> (r: Result<usize, IntError>)
    ensures
        match parse_count_spec(s@) {
            Ok(v) => if v <= usize::MAX {
                r == Ok::<usize, IntError>(v as usize)
            } else {
                r == Err::<usize, IntError>(IntError::Overflow)
            },
            Err(e) => r == Err::<usize, IntError>(e),
        },
{
    let cs = crate::text::chars_of(s);
    let n = cs.len();
    if n == 0 {
        return Err(IntError::Empty);
    }
    if n == 1 && (cs[0] == '+' || cs[0] == '-') {
        return Err(IntError::InvalidDigit);
    }
    let start: usize = if cs[0] == '+' {
        1
    } else {
        0
    };
    let ghost d = if s@[0] == '+' {
        s@.drop_first()
    } else {
        s@
    };
    assert(d =~= cs@.skip(start as int));
    let mut acc: u64 = 0;
    let mut i: usize = start;
    assert(cs@.skip(start as int) =~= cs@.skip(i as int));
    assert(parse_count_spec(s@) == read_digits(d, 0));
    while i < n
        invariant
            start <= i <= n,
            n == cs@.len(),
            cs@ == s@,
            d == cs@.skip(start as int),
            parse_count_spec(s@) == read_digits(d, 0),
            read_digits(d, 0) == read_digits(cs@.skip(i as int), acc as nat),
        decreases n - i,
    {
        let c = cs[i];
        let ghost rest = cs@.skip(i as int);
        assert(rest[0] == c);
        assert(rest.drop_first() =~= cs@.skip(i + 1));
        if !('0' <= c && c <= '9') {
            return Err(IntError::InvalidDigit);
        }
        let digit = (c as u32 - '0' as u32) as u64;
        if acc > (u64::MAX - digit) / 10 {
            assert(acc * 10 + digit > u64::MAX) by (nonlinear_arith)
                requires
                    acc > (u64::MAX - digit) / 10,
                    digit <= 9,
            ;
            return Err(IntError::Overflow);
        }
        assert(acc * 10 + digit <= u64::MAX) by (nonlinear_arith)
            requires
                acc <= (u64::MAX - digit) / 10,
                digit <= 9,
        ;
        acc = acc * 10 + digit;
        i = i + 1;
    }
    assert(cs@.skip(n as int) =~= Seq::<char>::empty());
    if acc as u128 > usize::MAX as u128 {
        return Err(IntError::Overflow);
    }
    Ok(acc as usize)
}

/// The lowercase form of an ASCII letter; other characters are unchanged.
pub open spec fn ascii_lower(c: char) -> char {
    if 'A' <= c && c <= 'Z' {
        ((c as u32) + 32) as char
    } else {
        c
    }
}

/// Whether `s` equals the lowercase ASCII word `w`, ignoring ASCII case.
pub open spec fn eq_ignore_case(s: Seq<char>, w: Seq<char>) -> bool {
    s.len() == w.len() && forall|i: int| 0 <= i < s.len() ==> ascii_lower(#[trigger] s[i]) == w[i]
}

/// The number of leading decimal digits of `s`.
pub open spec fn digit_run(s: Seq<char>) -> nat
    decreases s.len(),
{
    if s.len() > 0 && is_digit(s[0]) {
        1 + digit_run(s.drop_first())
    } else {
        0
    }
}

/// Whether `s` is an exponent part: empty, or `e`/`E`, an optional sign,
/// and one or more digits.
pub open spec fn is_exponent(s: Seq<char>) -> bool {
    s.len() == 0 || ((s[0] == 'e' || s[0] == 'E') && {
        let t = s.drop_first();
        let u = if t.len() > 0 && (t[0] == '+' || t[0] == '-') {
            t.drop_first()
        } else {
            t
        };
        u.len() > 0 && all_digits(u)
    })
}

/// Whether `t` is a decimal number: digits with at most one point and at
/// least one digit, then an optional exponent.
pub open spec fn is_decimal(t: Seq<char>) -> bool {
    let n1 = digit_run(t);
    let after = t.skip(n1 as int);
    if after.len() > 0 && after[0] == '.' {
        let frac = after.drop_first();
        let n2 = digit_run(frac);
        n1 + n2 > 0 && is_exponent(frac.skip(n2 as int))
    } else {
        n1 > 0 && is_exponent(after)
    }
}

/// Whether `s` is a floating-point literal as `f64::from_str` documents
/// them: an optional sign, then `inf`, `infinity` or `nan` in any case, or a
/// decimal number.
pub open spec fn is_float_literal(s: Seq<char>) -> bool {
    let t = if s.len() > 0 && (s[0] == '+' || s[0] == '-') {
        s.drop_first()
    } else {
        s
    };
    eq_ignore_case(t, "inf"@) || eq_ignore_case(t, "infinity"@) || eq_ignore_case(t, "nan"@)
        || is_decimal(t)
}

/// The number of leading digits of `cs` from `i`.
fn count_digits(cs: &[char], i: usize) -> (n: usize)
    requires
        i <= cs@.len(),
    ensures
        n == digit_run(cs@.skip(i as int)),
        i + n <= cs@.len(),
{
    let mut j: usize = i;
    while j < cs.len() && '0' <= cs[j] && cs[j] <= '9'
        invariant
            i <= j <= cs@.len(),
            forall|k: int| i <= k < j ==> is_digit(#[trigger] cs@[k]),
        decreases cs@.len() - j,
    {
        j = j + 1;
    }
    proof {
        lemma_digit_run(cs@.skip(i as int), j - i);
    }
    j - i
}

/// The digit run is the index of the first non-digit.
proof fn lemma_digit_run(s: Seq<char>, k: int)
    requires
        0 <= k <= s.len(),
        forall|i: int| 0 <= i < k ==> is_digit(#[trigger] s[i]),
        k == s.len() || !is_digit(s[k]),
    ensures
        digit_run(s) == k,
    decreases k,
{
    if k > 0 {
        let t = s.drop_first();
        assert forall|i: int| 0 <= i < k - 1 implies is_digit(#[trigger] t[i]) by {
            assert(t[i] == s[i + 1]);
        }
        if k - 1 < t.len() {
            assert(t[k - 1] == s[k]);
        }
        lemma_digit_run(t, k - 1);
    }
}

/// Whether the characters of `cs` from `i` on spell `w`, ignoring ASCII
/// case.
fn matches_word(cs: &[char], i: usize, w: &str) -> (b: bool)
    requires
        i <= cs@.len(),
    ensures
        b == eq_ignore_case(cs@.skip(i as int), w@),
{
    let wc = crate::text::chars_of(w);
    if cs.len() - i != wc.len() {
        return false;
    }
    let mut k: usize = 0;
    let m = cs.len();
    while k < wc.len()
        invariant
            0 <= k <= wc@.len(),
            m == cs@.len(),
            i + wc@.len() == m,
            wc@ == w@,
            cs@.len() - i == wc@.len(),
            i <= cs@.len(),
            forall|j: int| 0 <= j < k ==> ascii_lower(#[trigger] cs@.skip(i as int)[j]) == w@[j],
        decreases wc@.len() - k,
    {
        let c = cs[i + k];
        assert(cs@.skip(i as int)[k as int] == c);
        let lower = if 'A' <= c && c <= 'Z' {
            ((c as u32) + 32) as u8 as char
        } else {
            c
        };
        assert(lower == ascii_lower(c)) by {
            if 'A' <= c && c <= 'Z' {
                assert(((c as u32) + 32) as u8 as char == ((c as u32) + 32) as char);
            }
        }
        if lower != wc[k] {
            return false;
        }
        k = k + 1;
    }
    true
}

/// Whether the characters of `cs` from `i` on form an exponent part.
fn exponent_at(cs: &[char], i: usize) -> (b: bool)
    requires
        i <= cs@.len(),
    ensures
        b == is_exponent(cs@.skip(i as int)),
{
    let ghost s = cs@.skip(i as int);
    if i == cs.len() {
        return true;
    }
    if !(cs[i] == 'e' || cs[i] == 'E') {
        assert(s[0] == cs@[i as int]);
        return false;
    }
    assert(s[0] == cs@[i as int]);
    let mut j = i + 1;
    assert(s.drop_first() =~= cs@.skip(j as int));
    if j < cs.len() && (cs[j] == '+' || cs[j] == '-') {
        assert(cs@.skip(j as int)[0] == cs@[j as int]);
        assert(cs@.skip(j as int).drop_first() =~= cs@.skip(j + 1));
        j = j + 1;
    } else if j < cs.len() {
        assert(cs@.skip(j as int)[0] == cs@[j as int]);
    }
    let n = count_digits(cs, j);
    proof {
        let u = cs@.skip(j as int);
        if u.len() > 0 && all_digits(u) {
            let mut k: int = 0;
            lemma_all_digits_run(u);
        }
        if j + n == cs@.len() {
            lemma_run_all_digits(u);
        }
    }
    j < cs.len() && j + n == cs.len()
}

/// A string of digits is one digit run.
proof fn lemma_all_digits_run(u: Seq<char>)
    requires
        all_digits(u),
    ensures
        digit_run(u) == u.len(),
{
    lemma_digit_run(u, u.len() as int);
}

/// A digit run over the whole string makes it all digits.
proof fn lemma_run_all_digits(u: Seq<char>)
    requires
        digit_run(u) == u.len(),
    ensures
        all_digits(u),
    decreases u.len(),
{
    if u.len() > 0 {
        let t = u.drop_first();
        lemma_run_all_digits(t);
        assert forall|i: int| 0 <= i < u.len() implies '0' <= #[trigger] u[i] && u[i] <= '9' by {
            if i > 0 {
                assert(u[i] == t[i - 1]);
            }
        }
    }
}

/// Decides whether `s` is a floating-point literal.
pub fn float_literal(s: &str) -> (b: bool)
    ensures
        b == is_float_literal(s@),
{
    let cs = crate::text::chars_of(s);
    let mut i: usize = 0;
    if cs.len() > 0 && (cs[0] == '+' || cs[0] == '-') {
        i = 1;
    }
    let ghost t = if s@.len() > 0 && (s@[0] == '+' || s@[0] == '-') {
        s@.drop_first()
    } else {
        s@
    };
    assert(t =~= cs@.skip(i as int));
    let c = cs.as_slice();
    if matches_word(c, i, "inf") || matches_word(c, i, "infinity") || matches_word(c, i, "nan") {
        return true;
    }
    let n1 = count_digits(c, i);
    let p = i + n1;
    assert(t.skip(n1 as int) =~= cs@.skip(p as int));
    if p < cs.len() && cs[p] == '.' {
        assert(cs@.skip(p as int)[0] == cs@[p as int]);
        assert(cs@.skip(p as int).drop_first() =~= cs@.skip(p + 1));
        let n2 = count_digits(c, p + 1);
        assert(cs@.skip(p + 1).skip(n2 as int) =~= cs@.skip(p + 1 + n2));
        n1 + n2 > 0 && exponent_at(c, p + 1 + n2)
    } else {
        if p < cs.len() {
            assert(cs@.skip(p as int)[0] == cs@[p as int]);
        }
        n1 > 0 && exponent_at(c, p)
    }
}


/// A quality threshold as the arguments leave it.
#[derive(Clone, Debug, PartialEq, Eq)]
pub enum ThresholdArg {
    /// Not mentioned: the default threshold applies.
    Default,
    /// Set to the value this floating-point literal spells.
    Given(String),
    /// Cleared by `--no-fail`: the threshold is not enforced.
    Cleared,
}

/// The view of a threshold: default, given text, or cleared.
pub open spec fn threshold_view(t: ThresholdArg) -> Option<Option<Seq<char>>> {
    match t {
        ThresholdArg::Default => None,
        ThresholdArg::Given(s) => Some(Some(s@)),
        ThresholdArg::Cleared => Some(None),
    }
}

/// The parsed evaluation arguments.
#[derive(Clone, Debug, PartialEq, Eq)]
pub struct EvalArgs {
    /// The directory holding `corpus.jsonl`, `queries.jsonl` and
    /// `qrels.jsonl`.
    pub fixtures_dir: String,
    /// The cutoff depth K.
    pub cutoff_k: usize,
    /// Whether only the fixtures are validated.
    pub verify_only: bool,
    /// A file of precomputed rankings, if given.
    pub rankings_file: Option<String>,
    /// The Recall@K threshold.
    pub min_recall: ThresholdArg,
    /// The MRR@K threshold.
    pub min_mrr: ThresholdArg,
    /// The NDCG@K threshold.
    pub min_ndcg: ThresholdArg,
}

/// The view of the arguments: fixtures directory, K, verify-only, rankings
/// file, and the three thresholds.
pub type ArgsView = (
    Seq<char>,
    usize,
    bool,
    Option<Seq<char>>,
    Option<Option<Seq<char>>>,
    Option<Option<Seq<char>>>,
    Option<Option<Seq<char>>>,
);

/// The view of an optional string.
pub open spec fn opt_text(o: Option<String>) -> Option<Seq<char>> {
    match o {
        Some(s) => Some(s@),
        None => None,
    }
}

impl EvalArgs {
    /// The view of the arguments.
    pub open spec fn view_args(&self) -> ArgsView {
        (
            self.fixtures_dir@,
            self.cutoff_k,
            self.verify_only,
            opt_text(self.rankings_file),
            threshold_view(self.min_recall),
            threshold_view(self.min_mrr),
            threshold_view(self.min_ndcg),
        )
    }
}

/// The defaults: fixtures under `tests/fixtures/eval`, K of five, full
/// evaluation, no rankings file, default thresholds.
pub open spec fn default_args() -> ArgsView {
    ("tests/fixtures/eval"@, 5, false, None, None, None, None)
}

/// Why the evaluation arguments are invalid.
#[derive(Clone, Debug, PartialEq, Eq)]
pub enum EvalArgsError {
    /// An option lacks its value; this is the option.
    MissingArgument(&'static str),
    /// The value of `--k` is not a count.
    InvalidCount(IntError),
    /// A threshold value is not a floating-point literal.
    InvalidFloat,
    /// Help was requested.
    Usage,
    /// The option is not known.
    UnknownOption(String),
}

/// The view of an argument error.
pub enum ArgsErrorView {
    /// A missing value for the option.
    Missing(Seq<char>),
    /// An invalid count.
    Count(IntError),
    /// An invalid floating-point literal.
    Float,
    /// Help was requested.
    Usage,
    /// An unknown option.
    Unknown(Seq<char>),
}

/// The help text for the evaluation command.
pub const EVAL_USAGE: &'static str = "usage: cargo xtask eval [--fixtures <dir>] [--k <N>] [--verify-only] [--rankings <file>] [--fail-under-recall <F>] [--fail-under-mrr <F>] [--fail-under-ndcg <F>] [--no-fail]";

impl EvalArgsError {
    /// The view of the error.
    pub open spec fn view_error(&self) -> ArgsErrorView {
        match self {
            EvalArgsError::MissingArgument(o) => ArgsErrorView::Missing(o@),
            EvalArgsError::InvalidCount(e) => ArgsErrorView::Count(*e),
            EvalArgsError::InvalidFloat => ArgsErrorView::Float,
            EvalArgsError::Usage => ArgsErrorView::Usage,
            EvalArgsError::UnknownOption(o) => ArgsErrorView::Unknown(o@),
        }
    }

    /// The human-readable description of the error.
    pub fn message(&self) -> (m: String)
        ensures
            self matches EvalArgsError::MissingArgument(o) ==> m@ == "missing argument for "@ + o@,
            self matches EvalArgsError::InvalidCount(e) ==> m@ == (match e {
                IntError::Empty => "cannot parse integer from empty string"@,
                IntError::InvalidDigit => "invalid digit found in string"@,
                IntError::Overflow => "number too large to fit in target type"@,
            }),
            self is InvalidFloat ==> m@ == "invalid float literal"@,
            self is Usage ==> m@ == EVAL_USAGE@,
            self matches EvalArgsError::UnknownOption(o) ==> m@ == "unknown option for eval: '"@
                + o@ + "'"@,
    {
        match self {
            EvalArgsError::MissingArgument(o) => crate::errors::concat_str("missing argument for ", o),
            EvalArgsError::InvalidCount(e) => match e {
                IntError::Empty => "cannot parse integer from empty string".to_owned(),
                IntError::InvalidDigit => "invalid digit found in string".to_owned(),
                IntError::Overflow => "number too large to fit in target type".to_owned(),
            },
            EvalArgsError::InvalidFloat => "invalid float literal".to_owned(),
            EvalArgsError::Usage => EVAL_USAGE.to_owned(),
            EvalArgsError::UnknownOption(o) => {
                let head = crate::errors::concat_str("unknown option for eval: '", o.as_str());
                crate::errors::concat_str(head.as_str(), "'")
            },
        }
    }
}

/// The state after reading a count value for `--k`.
pub open spec fn with_count(st: ArgsView, v: nat) -> Result<ArgsView, ArgsErrorView> {
    if v <= usize::MAX {
        Ok((st.0, v as usize, st.2, st.3, st.4, st.5, st.6))
    } else {
        Err(ArgsErrorView::Count(IntError::Overflow))
    }
}

/// Reads the arguments from index `i` on, starting from state `st`.
pub open spec fn parse_args_from(args: Seq<Seq<char>>, i: int, st: ArgsView) -> Result<
    ArgsView,
    ArgsErrorView,
>
    decreases args.len() - i,
{
    if i >= args.len() || i < 0 {
        Ok(st)
    } else {
        let a = args[i];
        let has_value = i + 1 < args.len();
        let v = args[i + 1];
        if a == "--fixtures"@ {
            if has_value {
                parse_args_from(args, i + 2, (v, st.1, st.2, st.3, st.4, st.5, st.6))
            } else {
                Err(ArgsErrorView::Missing("--fixtures"@))
            }
        } else if a == "--k"@ {
            if has_value {
                match parse_count_spec(v) {
                    Ok(n) => match with_count(st, n) {
                        Ok(next) => parse_args_from(args, i + 2, next),
                        Err(e) => Err(e),
                    },
                    Err(e) => Err(ArgsErrorView::Count(e)),
                }
            } else {
                Err(ArgsErrorView::Missing("--k"@))
            }
        } else if a == "--verify-only"@ {
            parse_args_from(args, i + 1, (st.0, st.1, true, st.3, st.4, st.5, st.6))
        } else if a == "--rankings"@ {
            if has_value {
                parse_args_from(args, i + 2, (st.0, st.1, st.2, Some(v), st.4, st.5, st.6))
            } else {
                Err(ArgsErrorView::Missing("--rankings"@))
            }
        } else if a == "--fail-under-recall"@ {
            if !has_value {
                Err(ArgsErrorView::Missing("--fail-under-recall"@))
            } else if !is_float_literal(v) {
                Err(ArgsErrorView::Float)
            } else {
                parse_args_from(args, i + 2, (st.0, st.1, st.2, st.3, Some(Some(v)), st.5, st.6))
            }
        } else if a == "--fail-under-mrr"@ {
            if !has_value {
                Err(ArgsErrorView::Missing("--fail-under-mrr"@))
            } else if !is_float_literal(v) {
                Err(ArgsErrorView::Float)
            } else {
                parse_args_from(args, i + 2, (st.0, st.1, st.2, st.3, st.4, Some(Some(v)), st.6))
            }
        } else if a == "--fail-under-ndcg"@ {
            if !has_value {
                Err(ArgsErrorView::Missing("--fail-under-ndcg"@))
            } else if !is_float_literal(v) {
                Err(ArgsErrorView::Float)
            } else {
                parse_args_from(args, i + 2, (st.0, st.1, st.2, st.3, st.4, st.5, Some(Some(v))))
            }
        } else if a == "--no-fail"@ {
            parse_args_from(args, i + 1, (st.0, st.1, st.2, st.3, Some(None), Some(None), Some(None)))
        } else if a == "--help"@ || a == "-h"@ {
            Err(ArgsErrorView::Usage)
        } else {
            Err(ArgsErrorView::Unknown(a))
        }
    }
}

/// Sets a threshold from its literal, or reports an invalid literal.
fn given_threshold(text: &String) -> (r: Result<ThresholdArg, EvalArgsError>)
    ensures
        is_float_literal(text@) ==> (r matches Ok(t) && threshold_view(t) == Some(Some(text@))),
        !is_float_literal(text@) ==> r == Err::<ThresholdArg, EvalArgsError>(
            EvalArgsError::InvalidFloat,
        ),
{
    if float_literal(text.as_str()) {
        Ok(ThresholdArg::Given(text.clone()))
    } else {
        Err(EvalArgsError::InvalidFloat)
    }
}

/// Parses the arguments of the evaluation command, starting from the
/// defaults: options set the fixtures directory, K, verify-only mode, the
/// rankings file, and the thresholds (`--no-fail` clears all three); an
/// option without its value, an invalid count or threshold, a help request
/// or an unknown option is an error.
pub fn parse_eval_args(args: &[String]) -> (r: Result<EvalArgs, EvalArgsError>)
    ensures
        match parse_args_from(views(args@), 0, default_args()) {
            Ok(v) => r matches Ok(a) && a.view_args() == v,
            Err(e) => r matches Err(x) && x.view_error() == e,
        },
{
    let ghost av = views(args@);
    let mut out = EvalArgs {
        fixtures_dir: "tests/fixtures/eval".to_owned(),
        cutoff_k: 5,
        verify_only: false,
        rankings_file: None,
        min_recall: ThresholdArg::Default,
        min_mrr: ThresholdArg::Default,
        min_ndcg: ThresholdArg::Default,
    };
    let mut i: usize = 0;
    while i < args.len()
        invariant
            0 <= i <= args@.len(),
            av == views(args@),
            parse_args_from(av, 0, default_args()) == parse_args_from(av, i as int, out.view_args()),
        decreases args@.len() - i,
    {
        proof {
            reveal_strlit("--fixtures");
            reveal_strlit("--k");
            reveal_strlit("--verify-only");
            reveal_strlit("--rankings");
            reveal_strlit("--fail-under-recall");
            reveal_strlit("--fail-under-mrr");
            reveal_strlit("--fail-under-ndcg");
            reveal_strlit("--no-fail");
            reveal_strlit("--help");
            reveal_strlit("-h");
        }
        let a = args[i].as_str();
        assert(av[i as int] == a@);
        let has_value = i + 1 < args.len();
        if has_value {
            assert(av[i + 1] == args@[i + 1]@);
        }
        if str_eq(a, "--fixtures") {
            if !has_value {
                return Err(EvalArgsError::MissingArgument("--fixtures"));
            }
            out.fixtures_dir = args[i + 1].clone();
            i = i + 2;
        } else if str_eq(a, "--k") {
            if !has_value {
                return Err(EvalArgsError::MissingArgument("--k"));
            }
            match parse_count(args[i + 1].as_str()) {
                Ok(n) => {
                    out.cutoff_k = n;
                },
                Err(e) => return Err(EvalArgsError::InvalidCount(e)),
            }
            i = i + 2;
        } else if str_eq(a, "--verify-only") {
            out.verify_only = true;
            i = i + 1;
        } else if str_eq(a, "--rankings") {
            if !has_value {
                return Err(EvalArgsError::MissingArgument("--rankings"));
            }
            out.rankings_file = Some(args[i + 1].clone());
            i = i + 2;
        } else if str_eq(a, "--fail-under-recall") {
            if !has_value {
                return Err(EvalArgsError::MissingArgument("--fail-under-recall"));
            }
            match given_threshold(&args[i + 1]) {
                Ok(t) => out.min_recall = t,
                Err(e) => return Err(e),
            }
            i = i + 2;
        } else if str_eq(a, "--fail-under-mrr") {
            if !has_value {
                return Err(EvalArgsError::MissingArgument("--fail-under-mrr"));
            }
            match given_threshold(&args[i + 1]) {
                Ok(t) => out.min_mrr = t,
                Err(e) => return Err(e),
            }
            i = i + 2;
        } else if str_eq(a, "--fail-under-ndcg") {
            if !has_value {
                return Err(EvalArgsError::MissingArgument("--fail-under-ndcg"));
            }
            match given_threshold(&args[i + 1]) {
                Ok(t) => out.min_ndcg = t,
                Err(e) => return Err(e),
            }
            i = i + 2;
        } else if str_eq(a, "--no-fail") {
            out.min_recall = ThresholdArg::Cleared;
            out.min_mrr = ThresholdArg::Cleared;
            out.min_ndcg = ThresholdArg::Cleared;
            i = i + 1;
        } else if str_eq(a, "--help") || str_eq(a, "-h") {
            return Err(EvalArgsError::Usage);
        } else {
            return Err(EvalArgsError::UnknownOption(a.to_owned()));
        }
    }
    Ok(out)
}

} // verus!
