//! Command-line validation: the positive-integer validator and, on top of
//! it, the argument parser that yields a [`Config`].

use vstd::prelude::*;
use vstd::string::StrSliceExecFns;
use vstd::string::StringExecFns;

verus! {

/// A decimal digit `'0'..='9'`.
pub open spec fn is_digit(c: char) -> bool {
    48 <= c as u32 && c as u32 <= 57
}

/// The numeric value of a decimal digit.
pub open spec fn digit_value(c: char) -> nat {
    (c as u32 - 48) as nat
}

/// The digits of a candidate numeral: an optional leading `'+'` sign is
/// not part of them.
pub open spec fn digits_part(s: Seq<char>) -> Seq<char> {
    if s.len() > 0 && s[0] == '+' {
        s.skip(1)
    } else {
        s
    }
}

/// Every character of `s` is a decimal digit.
pub open spec fn all_digits(s: Seq<char>) -> bool {
    forall|i: int| 0 <= i < s.len() ==> is_digit(#[trigger] s[i])
}

/// `s` is a base-10 numeral: an optional leading `'+'`, then one or more
/// decimal digits.
pub open spec fn is_numeral(s: Seq<char>) -> bool {
    digits_part(s).len() > 0 && all_digits(digits_part(s))
}

/// The value of a digit string, most significant digit first.
pub open spec fn digits_value(s: Seq<char>) -> nat
    decreases s.len(),
{
    if s.len() == 0 {
        0
    } else {
        digits_value(s.drop_last()) * 10 + digit_value(s.last())
    }
}

/// The value of a numeral, ignoring a leading `'+'`.
pub open spec fn numeral_value(s: Seq<char>) -> nat {
    digits_value(digits_part(s))
}

/// The value of a digit string is at least the value of any of its
/// prefixes: appending digits never shrinks it.
proof fn lemma_digits_value_prefix_le(s: Seq<char>, k: int)
    requires
        0 <= k <= s.len(),
    ensures
        digits_value(s.take(k)) <= digits_value(s),
    decreases s.len() - k,
{
    if k < s.len() {
        assert(s.take(k + 1).drop_last() =~= s.take(k));
        assert(s.take(k + 1).last() == s[k]);
        lemma_digits_value_prefix_le(s, k + 1);
    } else {
        assert(s.take(k) =~= s);
    }
}

/// The positive-integer validator: accepts exactly the strings that read
/// as a base-10 integer `n` with `0 < n <= usize::MAX`, and on failure
/// hands the offending text back verbatim.
pub fn parse_positive(val: &str) -> (r: Result<usize, String>)
    ensures
        r is Ok <==> is_numeral(val@) && 1 <= numeral_value(val@) <= usize::MAX,
        r matches Ok(n) ==> n == numeral_value(val@),
        r matches Err(e) ==> e@ == val@,
{
    let n = val.unicode_len();
    let start: usize = if n > 0 && val.get_char(0) == '+' {
        1
    } else {
        0
    };
    let ghost digits = digits_part(val@);
    proof {
        assert(digits =~= val@.skip(start as int));
    }
    if start >= n {
        // No digits at all.
        return Err(val.to_owned());
    }
    let mut acc: usize = 0;
    let mut i: usize = start;
    while i < n
        invariant
            start <= i <= n,
            n == val@.len(),
            start <= 1,
            digits == digits_part(val@),
            digits == val@.skip(start as int),
            acc == digits_value(digits.take(i - start)),
            all_digits(digits.take(i - start)),
        decreases n - i,
    {
        let c = val.get_char(i);
        let cu: u32 = c as u32;
        if !(48 <= cu && cu <= 57) {
            // A non-digit character: the candidate is not a numeral.
            assert(digits[i - start] == c);
            return Err(val.to_owned());
        }
        let d: usize = (cu - 48) as usize;
        proof {
            assert(digits.take(i - start + 1).drop_last() =~= digits.take(i - start));
            assert(digits.take(i - start + 1).last() == digits[i - start]);
            assert(digits[i - start] == c);
        }
        if acc > (usize::MAX - d) / 10 {
            // The value no longer fits in usize; it can only grow from here.
            proof {
                assert(acc * 10 + d > usize::MAX) by (nonlinear_arith)
                    requires
                        acc > (usize::MAX - d) / 10,
                        d <= 9,
                ;
                lemma_digits_value_prefix_le(digits, i - start + 1);
            }
            return Err(val.to_owned());
        }
        proof {
            assert(acc * 10 + d <= usize::MAX) by (nonlinear_arith)
                requires
                    acc <= (usize::MAX - d) / 10,
                    d <= 9,
            ;
        }
        acc = acc * 10 + d;
        i = i + 1;
    }
    proof {
        assert(digits.take(n - start) =~= digits);
    }
    if acc == 0 {
        Err(val.to_owned())
    } else {
        Ok(acc)
    }
}

/// Which prefix of each source is printed: its first `n` lines, or its
/// first `n` bytes. Exactly one of the two is active per run.
#[derive(Clone, Copy, PartialEq, Eq, Structural, Debug)]
pub enum Mode {
    Lines(usize),
    Bytes(usize),
}

/// The run configuration: the named sources in declaration order, and the
/// active output mode.
#[derive(Debug)]
pub struct Config {
    pub files: Vec<String>,
    pub mode: Mode,
}

impl Config {
    /// There is at least one source, and the active count is positive.
    pub open spec fn wf(self) -> bool {
        &&& self.files@.len() > 0
        &&& match self.mode {
            Mode::Lines(n) => n > 0,
            Mode::Bytes(n) => n > 0,
        }
    }
}

/// A usage error: the arguments do not describe a valid run.
#[derive(Debug)]
pub enum HeadError {
    /// The value given for the line count, returned verbatim.
    IllegalLineCount(String),
    /// The value given for the byte count, returned verbatim.
    IllegalByteCount(String),
    /// Both a line count and a byte count were supplied.
    ModeConflict,
    /// The same count option was supplied twice.
    RepeatedOption(String),
    /// An option that the tool does not know.
    UnknownOption(String),
    /// A count option stood last, with no value after it.
    MissingValue(String),
}

/// The mathematical shape of a [`HeadError`].
pub enum ErrKind {
    IllegalLineCount(Seq<char>),
    IllegalByteCount(Seq<char>),
    ModeConflict,
    RepeatedOption(Seq<char>),
    UnknownOption(Seq<char>),
    MissingValue(Seq<char>),
}

impl View for HeadError {
    type V = ErrKind;

    open spec fn view(&self) -> ErrKind {
        match self {
            HeadError::IllegalLineCount(s) => ErrKind::IllegalLineCount(s@),
            HeadError::IllegalByteCount(s) => ErrKind::IllegalByteCount(s@),
            HeadError::ModeConflict => ErrKind::ModeConflict,
            HeadError::RepeatedOption(s) => ErrKind::RepeatedOption(s@),
            HeadError::UnknownOption(s) => ErrKind::UnknownOption(s@),
            HeadError::MissingValue(s) => ErrKind::MissingValue(s@),
        }
    }
}

/// The state of the argument scan: sources seen so far, and the counts
/// given explicitly so far.
pub struct ArgState {
    pub files: Seq<Seq<char>>,
    pub lines: Option<usize>,
    pub bytes: Option<usize>,
}

/// A token that selects the line count.
pub open spec fn is_lines_flag(t: Seq<char>) -> bool {
    t == "-n"@ || t == "--lines"@
}

/// A token that selects the byte count.
pub open spec fn is_bytes_flag(t: Seq<char>) -> bool {
    t == "-c"@ || t == "--bytes"@
}

/// A token that looks like an option: a dash followed by at least one
/// more character. The bare dash is a source name, not an option.
pub open spec fn is_option_like(t: Seq<char>) -> bool {
    t.len() >= 2 && t[0] == '-'
}

/// A count value that the validator accepts.
pub open spec fn is_valid_count(v: Seq<char>) -> bool {
    is_numeral(v) && 1 <= numeral_value(v) <= usize::MAX
}

/// The argument grammar, one token at a time, left to right. Count
/// options take the following token as their value; every other token
/// that does not look like an option names a source.
pub open spec fn parse_args(toks: Seq<Seq<char>>, st: ArgState) -> Result<ArgState, ErrKind>
    decreases toks.len(),
{
    if toks.len() == 0 {
        Ok(st)
    } else {
        let t = toks[0];
        if is_lines_flag(t) {
            if st.lines is Some {
                Err(ErrKind::RepeatedOption(t))
            } else if st.bytes is Some {
                Err(ErrKind::ModeConflict)
            } else if toks.len() == 1 {
                Err(ErrKind::MissingValue(t))
            } else if is_valid_count(toks[1]) {
                parse_args(
                    toks.skip(2),
                    (ArgState { lines: Some(numeral_value(toks[1]) as usize), ..st }),
                )
            } else {
                Err(ErrKind::IllegalLineCount(toks[1]))
            }
        } else if is_bytes_flag(t) {
            if st.bytes is Some {
                Err(ErrKind::RepeatedOption(t))
            } else if st.lines is Some {
                Err(ErrKind::ModeConflict)
            } else if toks.len() == 1 {
                Err(ErrKind::MissingValue(t))
            } else if is_valid_count(toks[1]) {
                parse_args(
                    toks.skip(2),
                    (ArgState { bytes: Some(numeral_value(toks[1]) as usize), ..st }),
                )
            } else {
                Err(ErrKind::IllegalByteCount(toks[1]))
            }
        } else if is_option_like(t) {
            Err(ErrKind::UnknownOption(t))
        } else {
            parse_args(toks.skip(1), (ArgState { files: st.files.push(t), ..st }))
        }
    }
}

/// The two count options exclude each other: starting from a state with
/// at most one count set, a scan can only finish with at most one count
/// set. An invocation that supplies both a line count and a byte count
/// therefore never parses: it fails before any source is looked at.
pub proof fn lemma_counts_exclusive(toks: Seq<Seq<char>>, st: ArgState)
    requires
        st.lines is None || st.bytes is None,
    ensures
        parse_args(toks, st) matches Ok(st2) ==> (st2.lines is None || st2.bytes is None),
    decreases toks.len(),
{
    if toks.len() > 0 {
        let t = toks[0];
        if is_lines_flag(t) {
            if st.lines is None && st.bytes is None && toks.len() > 1 && is_valid_count(toks[1]) {
                lemma_counts_exclusive(
                    toks.skip(2),
                    (ArgState { lines: Some(numeral_value(toks[1]) as usize), ..st }),
                );
            }
        } else if is_bytes_flag(t) {
            if st.lines is None && st.bytes is None && toks.len() > 1 && is_valid_count(toks[1]) {
                lemma_counts_exclusive(
                    toks.skip(2),
                    (ArgState { bytes: Some(numeral_value(toks[1]) as usize), ..st }),
                );
            }
        } else if !is_option_like(t) {
            lemma_counts_exclusive(toks.skip(1), (ArgState { files: st.files.push(t), ..st }));
        }
    }
}

/// The arguments after the program name.
pub open spec fn tail_of(args: Seq<Seq<char>>) -> Seq<Seq<char>> {
    if args.len() == 0 {
        args
    } else {
        args.skip(1)
    }
}

/// The scan starts with no sources and no explicit counts.
pub open spec fn init_state() -> ArgState {
    ArgState { files: Seq::empty(), lines: None, bytes: None }
}

/// The configuration a finished scan denotes: the sources default to the
/// standard-input sentinel, the line count to 10; an explicit byte count
/// selects byte mode.
pub open spec fn config_view(st: ArgState) -> (Seq<Seq<char>>, Mode) {
    (
        if st.files.len() == 0 {
            seq!["-"@]
        } else {
            st.files
        },
        match st.bytes {
            Some(b) => Mode::Bytes(b),
            None => Mode::Lines(
                match st.lines {
                    Some(l) => l,
                    None => 10,
                },
            ),
        },
    )
}

/// What a full argument list (program name included) parses to.
pub open spec fn parsed_config(args: Seq<Seq<char>>) -> Result<(Seq<Seq<char>>, Mode), ErrKind> {
    match parse_args(tail_of(args), init_state()) {
        Ok(st) => Ok(config_view(st)),
        Err(e) => Err(e),
    }
}

/// The message each usage error reads as. Count errors carry the
/// offending text verbatim after the named field.
pub open spec fn error_message_view(e: ErrKind) -> Seq<char> {
    match e {
        ErrKind::IllegalLineCount(s) => "illegal line count -- "@ + s,
        ErrKind::IllegalByteCount(s) => "illegal byte count -- "@ + s,
        ErrKind::ModeConflict => "the line count and byte count options cannot be used together"@,
        ErrKind::RepeatedOption(s) => "the option '"@ + s + "' cannot be used multiple times"@,
        ErrKind::UnknownOption(s) => "unexpected argument '"@ + s + "'"@,
        ErrKind::MissingValue(s) => "a value is required for '"@ + s + "'"@,
    }
}

/// Character-for-character string equality.
fn str_eq(a: &str, b: &str) -> (r: bool)
    ensures
        r == (a@ == b@),
{
    let na = a.unicode_len();
    let nb = b.unicode_len();
    if na != nb {
        return false;
    }
    let mut i: usize = 0;
    while i < na
        invariant
            i <= na,
            na == a@.len(),
            nb == b@.len(),
            na == nb,
            forall|j: int| 0 <= j < i ==> a@[j] == b@[j],
        decreases na - i,
    {
        if a.get_char(i) != b.get_char(i) {
            return false;
        }
        i = i + 1;
    }
    proof {
        assert(a@ =~= b@);
    }
    true
}

/// The state the exec scan holds, seen abstractly.
pub open spec fn state_view(
    files: Seq<Seq<char>>,
    lines: Option<usize>,
    bytes: Option<usize>,
) -> ArgState {
    ArgState { files, lines, bytes }
}

/// Validates and normalizes the raw argument list (program name first)
/// into a [`Config`], or reports the first usage error, exactly as the
/// argument grammar [`parse_args`] reads the list.
pub fn get_args(cmd_args: Vec<String>) -> (r: Result<Config, HeadError>)
    ensures
        ({
            let p = parsed_config(cmd_args.deep_view());
            match r {
                Ok(c) => {
                    &&& p matches Ok(pc)
                    &&& c.files.deep_view() == pc.0
                    &&& c.mode == pc.1
                    &&& c.wf()
                },
                Err(e) => p matches Err(ev) && e@ == ev,
            }
        }),
{
    let ghost all = cmd_args.deep_view();
    let ghost toks = tail_of(all);
    let len = cmd_args.len();
    let mut files: Vec<String> = Vec::new();
    let mut lines: Option<usize> = None;
    let mut bytes: Option<usize> = None;
    let mut i: usize = 1;
    proof {
        assert(all.len() == cmd_args@.len());
        if len > 0 {
            assert(toks =~= all.skip(1));
        }
        assert(files.deep_view() =~= Seq::<Seq<char>>::empty());
        assert(state_view(files.deep_view(), lines, bytes) == init_state());
        assert(toks.skip(0) =~= toks);
    }
    while i < len
        invariant
            1 <= i,
            len == cmd_args@.len(),
            all == cmd_args.deep_view(),
            toks == tail_of(all),
            len == 0 ==> i == 1,
            len > 0 ==> i <= len,
            toks.len() == (if len == 0 { 0int } else { len - 1 }),
            files.deep_view().len() == files@.len(),
            lines matches Some(l) ==> l >= 1,
            bytes matches Some(b) ==> b >= 1,
            parse_args(toks, init_state()) == parse_args(
                toks.skip(i - 1),
                state_view(files.deep_view(), lines, bytes),
            ),
        decreases len - i,
    {
        let ghost tv = toks.skip(i - 1);
        let ghost stv = state_view(files.deep_view(), lines, bytes);
        let t = &cmd_args[i];
        proof {
            assert(tv.len() == len - i);
            assert(tv[0] == toks[i - 1]);
            assert(toks[i - 1] == all[i as int]);
            assert(all[i as int] == cmd_args@[i as int]@);
            assert(tv[0] == t@);
        }
        let is_lines = str_eq(t.as_str(), "-n") || str_eq(t.as_str(), "--lines");
        let is_bytes = str_eq(t.as_str(), "-c") || str_eq(t.as_str(), "--bytes");
        if is_lines || is_bytes {
            if is_lines {
                if lines.is_some() {
                    return Err(HeadError::RepeatedOption(t.clone()));
                }
                if bytes.is_some() {
                    return Err(HeadError::ModeConflict);
                }
            } else {
                if bytes.is_some() {
                    return Err(HeadError::RepeatedOption(t.clone()));
                }
                if lines.is_some() {
                    return Err(HeadError::ModeConflict);
                }
            }
            if i + 1 >= len {
                return Err(HeadError::MissingValue(t.clone()));
            }
            let v = &cmd_args[i + 1];
            proof {
                assert(tv[1] == toks[i as int]);
                assert(toks[i as int] == all[i + 1]);
                assert(all[i + 1] == cmd_args@[i + 1]@);
                assert(tv[1] == v@);
            }
            match parse_positive(v.as_str()) {
                Ok(cnt) => {
                    if is_lines {
                        lines = Some(cnt);
                    } else {
                        bytes = Some(cnt);
                    }
                },
                Err(raw) => {
                    if is_lines {
                        return Err(HeadError::IllegalLineCount(raw));
                    } else {
                        return Err(HeadError::IllegalByteCount(raw));
                    }
                },
            }
            proof {
                assert(tv.skip(2) =~= toks.skip(i + 1));
            }
            i = i + 2;
        } else {
            let option_like = t.as_str().unicode_len() >= 2 && t.as_str().get_char(0) == '-';
            if option_like {
                return Err(HeadError::UnknownOption(t.clone()));
            }
            files.push(t.clone());
            proof {
                assert(tv.skip(1) =~= toks.skip(i as int));
                assert(files.deep_view() =~= stv.files.push(t@));
            }
            i = i + 1;
        }
    }
    proof {
        assert(toks.skip(i - 1) =~= Seq::<Seq<char>>::empty());
    }
    if files.len() == 0 {
        files.push("-".to_owned());
        proof {
            assert(files.deep_view() =~= seq!["-"@]);
        }
    }
    let mode = match bytes {
        Some(b) => Mode::Bytes(b),
        None => match lines {
            Some(l) => Mode::Lines(l),
            None => Mode::Lines(10),
        },
    };
    Ok(Config { files, mode })
}

/// Renders a usage error as its diagnostic text.
pub fn error_message(e: &HeadError) -> (r: String)
    ensures
        r@ == error_message_view(e@),
{
    match e {
        HeadError::IllegalLineCount(s) => {
            let mut r = String::from_str("illegal line count -- ");
            r.append(s.as_str());
            r
        },
        HeadError::IllegalByteCount(s) => {
            let mut r = String::from_str("illegal byte count -- ");
            r.append(s.as_str());
            r
        },
        HeadError::ModeConflict => String::from_str(
            "the line count and byte count options cannot be used together",
        ),
        HeadError::RepeatedOption(s) => {
            let mut r = String::from_str("the option '");
            r.append(s.as_str());
            r.append("' cannot be used multiple times");
            r
        },
        HeadError::UnknownOption(s) => {
            let mut r = String::from_str("unexpected argument '");
            r.append(s.as_str());
            r.append("'");
            r
        },
        HeadError::MissingValue(s) => {
            let mut r = String::from_str("a value is required for '");
            r.append(s.as_str());
            r.append("'");
            r
        },
    }
}

} // verus!
