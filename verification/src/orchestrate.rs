//! The run over all declared sources: per-source headers, rendered
//! content, and one diagnostic per source that could not be opened.
//!
//! Opening and reading are the caller's: each source arrives either as
//! its bytes or as the text of its open error, in declaration order.

use vstd::prelude::*;
use vstd::string::StrSliceExecFns;
use vstd::string::StringExecFns;
use vstd::utf8::encode_utf8;
use vstd::utf8::valid_utf8;

use crate::args::Config;
use crate::args::Mode;
use crate::render::byte_prefix;
use crate::render::head_bytes;
use crate::render::head_lines;
use crate::render::header_chars;
use crate::render::header_line;
use crate::render::line_prefix;
use crate::render::lossy_chars;

verus! {

/// One declared source, after the caller tried to open and read it: its
/// bytes, or the operating-system text of its open failure.
pub enum SourceOutcome {
    Data(Vec<u8>),
    OpenError(String),
}

/// The mathematical shape of a [`SourceOutcome`].
pub enum OutcomeKind {
    Data(Seq<u8>),
    OpenError(Seq<char>),
}

impl View for SourceOutcome {
    type V = OutcomeKind;

    open spec fn view(&self) -> OutcomeKind {
        match self {
            SourceOutcome::Data(d) => OutcomeKind::Data(d@),
            SourceOutcome::OpenError(e) => OutcomeKind::OpenError(e@),
        }
    }
}

impl DeepView for SourceOutcome {
    type V = OutcomeKind;

    open spec fn deep_view(&self) -> OutcomeKind {
        self.view()
    }
}

/// The bytes one source's content contributes: its first lines verbatim,
/// or its first bytes decoded permissively and written back as text.
pub open spec fn content_bytes(data: Seq<u8>, mode: Mode) -> Seq<u8> {
    match mode {
        Mode::Lines(n) => line_prefix(data, n as nat),
        Mode::Bytes(n) => encode_utf8(lossy_chars(byte_prefix(data, n as nat))),
    }
}

/// Everything one source puts on standard output: nothing when it failed
/// to open; otherwise its header (in a multi-source run) and its content.
pub open spec fn source_stdout(
    name: Seq<char>,
    out: OutcomeKind,
    first: bool,
    multiple: bool,
    mode: Mode,
) -> Seq<u8> {
    match out {
        OutcomeKind::Data(d) => (if multiple {
            encode_utf8(header_chars(name, first))
        } else {
            Seq::<u8>::empty()
        }) + content_bytes(d, mode),
        OutcomeKind::OpenError(_) => Seq::empty(),
    }
}

/// Standard output after the first `i` sources.
pub open spec fn stdout_upto(
    names: Seq<Seq<char>>,
    outs: Seq<OutcomeKind>,
    mode: Mode,
    i: int,
) -> Seq<u8>
    decreases i,
{
    if i <= 0 {
        Seq::empty()
    } else {
        stdout_upto(names, outs, mode, i - 1) + source_stdout(
            names[i - 1],
            outs[i - 1],
            i - 1 == 0,
            names.len() > 1,
            mode,
        )
    }
}

/// Standard output of the whole run.
pub open spec fn run_stdout(names: Seq<Seq<char>>, outs: Seq<OutcomeKind>, mode: Mode) -> Seq<u8> {
    stdout_upto(names, outs, mode, names.len() as int)
}

/// The diagnostic line reported when a source cannot be opened.
pub open spec fn diag_chars(name: Seq<char>, err: Seq<char>) -> Seq<char> {
    "headr: "@ + name + ": "@ + err
}

/// The diagnostics after the first `i` sources, in source order.
pub open spec fn stderr_upto(names: Seq<Seq<char>>, outs: Seq<OutcomeKind>, i: int) -> Seq<
    Seq<char>,
>
    decreases i,
{
    if i <= 0 {
        Seq::empty()
    } else {
        stderr_upto(names, outs, i - 1) + (match outs[i - 1] {
            OutcomeKind::Data(_) => Seq::<Seq<char>>::empty(),
            OutcomeKind::OpenError(e) => seq![diag_chars(names[i - 1], e)],
        })
    }
}

/// The diagnostics of the whole run.
pub open spec fn run_stderr(names: Seq<Seq<char>>, outs: Seq<OutcomeKind>) -> Seq<Seq<char>> {
    stderr_upto(names, outs, names.len() as int)
}

/// A single-source run prints content alone: no header ever, and no
/// diagnostic when the source opens.
pub proof fn lemma_single_source_plain(
    names: Seq<Seq<char>>,
    outs: Seq<OutcomeKind>,
    mode: Mode,
    d: Seq<u8>,
)
    requires
        names.len() == 1,
        outs.len() == 1,
        outs[0] == OutcomeKind::Data(d),
    ensures
        run_stdout(names, outs, mode) == content_bytes(d, mode),
        run_stderr(names, outs) == Seq::<Seq<char>>::empty(),
{
    reveal_with_fuel(stdout_upto, 2);
    reveal_with_fuel(stderr_upto, 2);
    assert(run_stdout(names, outs, mode) =~= content_bytes(d, mode));
    assert(run_stderr(names, outs) =~= Seq::<Seq<char>>::empty());
}

/// With a single source that opens, a line count beyond the number of
/// line terminators the source holds writes it back in full, with no
/// header and nothing added.
pub proof fn lemma_single_source_whole_file(
    names: Seq<Seq<char>>,
    outs: Seq<OutcomeKind>,
    d: Seq<u8>,
    n: usize,
)
    requires
        names.len() == 1,
        outs.len() == 1,
        outs[0] == OutcomeKind::Data(d),
        n as nat > crate::render::line_feed_count(d),
    ensures
        run_stdout(names, outs, Mode::Lines(n)) == d,
        run_stderr(names, outs) == Seq::<Seq<char>>::empty(),
{
    lemma_single_source_plain(names, outs, Mode::Lines(n), d);
    crate::render::lemma_line_prefix_whole(d, n as nat);
}

/// In a two-source run where both sources open, standard output holds
/// exactly one header per source, in declaration order, each directly
/// followed by that source's content; the second header is preceded by
/// exactly one blank line, the first by nothing.
pub proof fn lemma_two_source_headers(
    names: Seq<Seq<char>>,
    outs: Seq<OutcomeKind>,
    mode: Mode,
    d0: Seq<u8>,
    d1: Seq<u8>,
)
    requires
        names.len() == 2,
        outs.len() == 2,
        outs[0] == OutcomeKind::Data(d0),
        outs[1] == OutcomeKind::Data(d1),
    ensures
        run_stdout(names, outs, mode) == encode_utf8(header_chars(names[0], true))
            + content_bytes(d0, mode) + encode_utf8(header_chars(names[1], false))
            + content_bytes(d1, mode),
        header_chars(names[1], false) == seq!['\n'] + header_chars(names[1], true),
{
    reveal_with_fuel(stdout_upto, 3);
    assert(run_stdout(names, outs, mode) =~= encode_utf8(header_chars(names[0], true))
        + content_bytes(d0, mode) + encode_utf8(header_chars(names[1], false)) + content_bytes(
        d1,
        mode,
    ));
    reveal_strlit("\n");
    assert(header_chars(names[1], false) =~= seq!['\n'] + header_chars(names[1], true));
}

/// An open failure is confined to its own source: in a two-source run
/// whose second source does not open, standard output holds the first
/// source alone, and the error stream exactly the failed source's
/// diagnostic. The run as a whole still completes.
pub proof fn lemma_open_failure_isolated(
    names: Seq<Seq<char>>,
    outs: Seq<OutcomeKind>,
    mode: Mode,
    d: Seq<u8>,
    e: Seq<char>,
)
    requires
        names.len() == 2,
        outs.len() == 2,
        outs[0] == OutcomeKind::Data(d),
        outs[1] == OutcomeKind::OpenError(e),
    ensures
        run_stdout(names, outs, mode) == encode_utf8(header_chars(names[0], true))
            + content_bytes(d, mode),
        run_stderr(names, outs) == seq![diag_chars(names[1], e)],
{
    reveal_with_fuel(stdout_upto, 3);
    reveal_with_fuel(stderr_upto, 3);
    assert(run_stdout(names, outs, mode) =~= encode_utf8(header_chars(names[0], true))
        + content_bytes(d, mode));
    assert(run_stderr(names, outs) =~= seq![diag_chars(names[1], e)]);
}

/// A byte count at or beyond the size of a source holding valid UTF-8
/// text writes the source back in full: nothing is replaced, dropped or
/// padded.
pub proof fn lemma_bytes_mode_whole_file(data: Seq<u8>, n: usize)
    requires
        data.len() <= n,
        valid_utf8(data),
    ensures
        content_bytes(data, Mode::Bytes(n)) == data,
{
    crate::render::lemma_byte_prefix_whole(data, n as nat);
    vstd::utf8::decode_utf8_encode_utf8(data);
}

/// What a run writes: the bytes for standard output, and the diagnostic
/// lines for the error stream, in order.
pub struct RunOutput {
    pub stdout: Vec<u8>,
    pub diagnostics: Vec<String>,
}

/// Appends a copy of `src` to `dst`.
fn extend_bytes(dst: &mut Vec<u8>, src: &Vec<u8>)
    ensures
        final(dst)@ == old(dst)@ + src@,
{
    let len = src.len();
    let mut j: usize = 0;
    proof {
        assert(dst@ + src@.take(0) =~= dst@);
    }
    while j < len
        invariant
            j <= len,
            len == src@.len(),
            dst@ == old(dst)@ + src@.take(j as int),
        decreases len - j,
    {
        dst.push(src[j]);
        proof {
            let ghost one = seq![src@[j as int]];
            assert(old(dst)@ + src@.take(j + 1) =~= (old(dst)@ + src@.take(j as int)) + one);
        }
        j = j + 1;
    }
    proof {
        assert(src@.take(len as int) =~= src@);
    }
}

/// Builds the diagnostic line for one source that failed to open.
pub fn diag_line(name: &str, err: &str) -> (r: String)
    ensures
        r@ == diag_chars(name@, err@),
{
    let mut r = String::from_str("headr: ");
    r.append(name);
    r.append(": ");
    r.append(err);
    proof {
        assert(r@ =~= diag_chars(name@, err@));
    }
    r
}

/// Renders the whole run: for each declared source in order, either its
/// header (in a multi-source run) and its rendered content on standard
/// output, or one diagnostic line; an open failure silences only its own
/// source.
pub fn run(config: &Config, outcomes: &Vec<SourceOutcome>) -> (r: RunOutput)
    requires
        outcomes@.len() == config.files@.len(),
    ensures
        r.stdout@ == run_stdout(config.files.deep_view(), outcomes.deep_view(), config.mode),
        r.diagnostics.deep_view() == run_stderr(config.files.deep_view(), outcomes.deep_view()),
{
    let ghost names = config.files.deep_view();
    let ghost outs = outcomes.deep_view();
    let n = config.files.len();
    let multiple = n > 1;
    let mut stdout: Vec<u8> = Vec::new();
    let mut diagnostics: Vec<String> = Vec::new();
    let mut i: usize = 0;
    proof {
        assert(diagnostics.deep_view() =~= Seq::<Seq<char>>::empty());
        assert(stdout@ =~= Seq::<u8>::empty());
    }
    while i < n
        invariant
            i <= n,
            n == config.files@.len(),
            outcomes@.len() == n,
            names == config.files.deep_view(),
            outs == outcomes.deep_view(),
            names.len() == n,
            outs.len() == n,
            multiple == (n > 1),
            stdout@ == stdout_upto(names, outs, config.mode, i as int),
            diagnostics.deep_view() == stderr_upto(names, outs, i as int),
        decreases n - i,
    {
        let name = &config.files[i];
        proof {
            assert(names[i as int] == config.files@[i as int]@);
            assert(outs[i as int] == outcomes@[i as int].deep_view());
        }
        let ghost stdout_before = stdout@;
        let ghost diags_before = diagnostics.deep_view();
        match &outcomes[i] {
            SourceOutcome::Data(d) => {
                if multiple {
                    let h = header_line(name.as_str(), i == 0);
                    let hb = h.as_str().as_bytes_vec();
                    extend_bytes(&mut stdout, &hb);
                }
                match config.mode {
                    Mode::Lines(cnt) => {
                        let body = head_lines(d, cnt);
                        extend_bytes(&mut stdout, &body);
                    },
                    Mode::Bytes(cnt) => {
                        let s = head_bytes(d, cnt);
                        let bb = s.as_str().as_bytes_vec();
                        extend_bytes(&mut stdout, &bb);
                    },
                }
                proof {
                    assert(stdout@ =~= stdout_before + source_stdout(
                        names[i as int],
                        outs[i as int],
                        i == 0,
                        multiple,
                        config.mode,
                    ));
                    assert(stderr_upto(names, outs, i + 1) =~= diags_before);
                }
            },
            SourceOutcome::OpenError(e) => {
                let dline = diag_line(name.as_str(), e.as_str());
                diagnostics.push(dline);
                proof {
                    assert(diagnostics.deep_view() =~= stderr_upto(names, outs, i + 1));
                    assert(stdout_upto(names, outs, config.mode, i + 1) =~= stdout@);
                }
            },
        }
        i = i + 1;
    }
    RunOutput { stdout, diagnostics }
}

} // verus!
