//! The cat-like pass-through: per-source line formatting under the three
//! line modes, and the multi-source loop that isolates open failures.
use crate::SelectionMode;
use crate::numbers::dec_rep;
use crate::numbers::lemma_dec_rep_injective;
use crate::numbers::number_prefix;
use crate::numbers::numbered_line;
use vstd::prelude::*;
use vstd::string::StringExecFns;

verus! {

/// A validated cat-like configuration: the source tokens in order and the
/// line mode chosen once from the two numbering options.
#[derive(Debug)]
pub struct Config {
    pub files: Vec<String>,
    pub mode: SelectionMode,
}

impl Config {
    /// A cat-like configuration carries at least one source token and one
    /// of the three line modes.
    pub open spec fn wf(&self) -> bool {
        &&& self.files@.len() > 0
        &&& (self.mode is WholeStream || self.mode is NumberAllLines
            || self.mode is NumberNonBlankLines)
    }

    /// Validate a cat-like invocation: at least one source token, and at
    /// most one of the two numbering options. On success the mode is fixed
    /// once: number all lines, else number non-blank lines, else pass the
    /// whole stream through.
    pub fn new(files: Vec<String>, number_lines: bool, number_nonblank_lines: bool) -> (r:
        Result<Config, String>)
        ensures
            r is Ok <==> (files@.len() > 0 && !(number_lines && number_nonblank_lines)),
            r is Ok ==> r->Ok_0.files == files,
            r is Ok ==> r->Ok_0.mode == (if number_lines {
                SelectionMode::NumberAllLines
            } else if number_nonblank_lines {
                SelectionMode::NumberNonBlankLines
            } else {
                SelectionMode::WholeStream
            }),
            r is Ok ==> r->Ok_0.wf(),
    {
        if files.len() == 0 {
            return Err(String::from_str("no input files given"));
        }
        if number_lines && number_nonblank_lines {
            return Err(
                String::from_str("the options to number all lines and to number non-blank lines conflict"),
            );
        }
        let mode = if number_lines {
            SelectionMode::NumberAllLines
        } else if number_nonblank_lines {
            SelectionMode::NumberNonBlankLines
        } else {
            SelectionMode::WholeStream
        };
        Ok(Config { files, mode })
    }
}

/// How many of the first `i` lines are non-blank.
pub open spec fn nonblank_count(lines: Seq<Seq<char>>, i: int) -> nat
    decreases i,
{
    if i <= 0 {
        0
    } else {
        nonblank_count(lines, i - 1) + (if lines[i - 1].len() > 0 {
            1nat
        } else {
            0nat
        })
    }
}

/// Output line `i` of one source under a line mode: verbatim for the whole
/// stream, numbered `i + 1` when all lines are numbered, and numbered by
/// the count of non-blank lines so far when only those are numbered.
pub open spec fn cat_line(lines: Seq<Seq<char>>, i: int, mode: SelectionMode) -> Seq<char> {
    match mode {
        SelectionMode::NumberAllLines => numbered_line((i + 1) as nat, lines[i]),
        SelectionMode::NumberNonBlankLines => if lines[i].len() == 0 {
            lines[i]
        } else {
            numbered_line(nonblank_count(lines, i) + 1, lines[i])
        },
        _ => lines[i],
    }
}

/// The formatted output of one source: one output line per input line.
pub open spec fn format_spec(lines: Seq<Seq<char>>, mode: SelectionMode) -> Seq<Seq<char>> {
    Seq::new(lines.len(), |i: int| cat_line(lines, i, mode))
}

/// The per-line counter that the formatter carries: the number of lines
/// already numbered among the first `i`.
pub open spec fn counter_spec(lines: Seq<Seq<char>>, i: int, mode: SelectionMode) -> nat {
    match mode {
        SelectionMode::NumberAllLines => i as nat,
        SelectionMode::NumberNonBlankLines => nonblank_count(lines, i),
        _ => 0,
    }
}

/// Format the lines of one opened source under a line mode. The per-source
/// counter starts at zero here, so numbering is never shared across
/// sources.
pub fn format_lines(lines: &Vec<String>, mode: &SelectionMode) -> (r: Vec<String>)
    ensures
        r.deep_view() == format_spec(lines.deep_view(), *mode),
{
    let ghost dv = lines.deep_view();
    let mut r: Vec<String> = Vec::new();
    let mut count: usize = 0;
    let mut i: usize = 0;
    while i < lines.len()
        invariant
            dv == lines.deep_view(),
            dv.len() == lines@.len(),
            i <= lines@.len(),
            count == counter_spec(dv, i as int, *mode),
            count <= i,
            r.deep_view() == format_spec(dv, *mode).subrange(0, i as int),
        decreases lines@.len() - i,
    {
        let ghost prev = r.deep_view();
        let line = &lines[i];
        match mode {
            SelectionMode::NumberAllLines => {
                let mut s = number_prefix(count + 1);
                s.append(line.as_str());
                proof {
                    assert(s@ =~= numbered_line((count + 1) as nat, dv[i as int]));
                }
                r.push(s);
                count = count + 1;
            },
            SelectionMode::NumberNonBlankLines => {
                if line.as_str().is_empty() {
                    r.push(line.clone());
                } else {
                    let mut s = number_prefix(count + 1);
                    s.append(line.as_str());
                    proof {
                        assert(s@ =~= numbered_line((count + 1) as nat, dv[i as int]));
                    }
                    r.push(s);
                    count = count + 1;
                }
            },
            _ => {
                r.push(line.clone());
            },
        }
        i = i + 1;
        proof {
            assert(r.deep_view() =~= format_spec(dv, *mode).subrange(0, i as int)) by {
                assert(r@.len() == prev.len() + 1);
                assert(prev.len() == i - 1);
                assert forall|j: int| 0 <= j < r@.len() implies #[trigger] r.deep_view()[j]
                    == format_spec(dv, *mode).subrange(0, i as int)[j] by {
                    if j < i - 1 {
                        assert(r.deep_view()[j] == prev[j]);
                    } else {
                        assert(r.deep_view()[j] == r@[i - 1]@);
                    }
                }
            }
        }
    }
    proof {
        assert(format_spec(dv, *mode).subrange(0, lines@.len() as int) =~= format_spec(dv, *mode));
    }
    r
}

/// One source of a run: its token and either its decoded lines or the
/// cause of its open failure.
pub struct Source {
    pub token: String,
    pub data: Result<Vec<String>, String>,
}

/// What a cat-like run emits: the output lines, and one diagnostic per
/// source that could not be opened.
pub struct RunOutput {
    pub lines: Vec<String>,
    pub diagnostics: Vec<String>,
}

/// The diagnostic for a source token that could not be opened, carrying
/// the token and the underlying cause.
pub open spec fn open_fail_msg(token: Seq<char>, cause: Seq<char>) -> Seq<char> {
    "Failed to open "@ + token + ": "@ + cause
}

/// The output lines of a whole cat-like run: the formatted lines of each
/// source that opened, in source order; failed sources contribute nothing.
pub open spec fn run_out_spec(sources: Seq<Source>, mode: SelectionMode) -> Seq<Seq<char>>
    decreases sources.len(),
{
    if sources.len() == 0 {
        Seq::<Seq<char>>::empty()
    } else {
        run_out_spec(sources.drop_last(), mode) + (match sources.last().data {
            Ok(ls) => format_spec(ls.deep_view(), mode),
            Err(_) => Seq::<Seq<char>>::empty(),
        })
    }
}

/// The diagnostics of a whole cat-like run: one open-failure message per
/// failed source, in source order.
pub open spec fn run_diags_spec(sources: Seq<Source>) -> Seq<Seq<char>>
    decreases sources.len(),
{
    if sources.len() == 0 {
        Seq::<Seq<char>>::empty()
    } else {
        run_diags_spec(sources.drop_last()) + (match sources.last().data {
            Ok(_) => Seq::<Seq<char>>::empty(),
            Err(e) => seq![open_fail_msg(sources.last().token@, e@)],
        })
    }
}

/// Render the diagnostic for one open failure.
pub fn open_fail_message(token: &str, cause: &str) -> (r: String)
    ensures
        r@ == open_fail_msg(token@, cause@),
{
    let mut r = String::from_str("Failed to open ");
    r.append(token);
    r.append(": ");
    r.append(cause);
    proof {
        assert(r@ =~= open_fail_msg(token@, cause@));
    }
    r
}

/// Process the sources of a cat-like run in order: each opened source's
/// lines are formatted under the mode with a fresh counter; each source
/// that failed to open yields one diagnostic and is skipped, so one
/// unreadable source never aborts the rest.
pub fn run(mode: &SelectionMode, sources: &Vec<Source>) -> (r: RunOutput)
    ensures
        r.lines.deep_view() == run_out_spec(sources@, *mode),
        r.diagnostics.deep_view() == run_diags_spec(sources@),
{
    let mut out: Vec<String> = Vec::new();
    let mut diags: Vec<String> = Vec::new();
    let mut i: usize = 0;
    while i < sources.len()
        invariant
            i <= sources@.len(),
            out.deep_view() == run_out_spec(sources@.subrange(0, i as int), *mode),
            diags.deep_view() == run_diags_spec(sources@.subrange(0, i as int)),
        decreases sources@.len() - i,
    {
        let ghost prev_out = out.deep_view();
        let ghost prev_diags = diags.deep_view();
        let source = &sources[i];
        match &source.data {
            Ok(ls) => {
                let mut formatted = format_lines(ls, mode);
                let ghost fv = formatted.deep_view();
                out.append(&mut formatted);
                proof {
                    assert(out.deep_view() =~= prev_out + fv) by {
                        assert forall|j: int| 0 <= j < out@.len() implies #[trigger] out.deep_view()[j]
                            == (prev_out + fv)[j] by {
                        }
                    }
                }
            },
            Err(e) => {
                let msg = open_fail_message(source.token.as_str(), e.as_str());
                diags.push(msg);
                proof {
                    assert(diags.deep_view() =~= prev_diags.push(msg@)) by {
                        assert forall|j: int| 0 <= j < diags@.len() implies #[trigger] diags.deep_view()[j]
                            == prev_diags.push(msg@)[j] by {
                        }
                    }
                }
            },
        }
        i = i + 1;
        proof {
            let pre = sources@.subrange(0, i - 1);
            let cur = sources@.subrange(0, i as int);
            assert(cur.drop_last() =~= pre);
            assert(cur.last() == sources@[i - 1]);
            assert(out.deep_view() =~= run_out_spec(cur, *mode));
            assert(diags.deep_view() =~= run_diags_spec(cur));
        }
    }
    proof {
        assert(sources@.subrange(0, sources@.len() as int) =~= sources@);
    }
    RunOutput { lines: out, diagnostics: diags }
}

/// Law: under `WholeStream` the output of one source is its input, line
/// for line: splitting and rejoining on line boundaries changes nothing.
pub proof fn lemma_whole_stream_identity(lines: Seq<Seq<char>>)
    ensures
        format_spec(lines, SelectionMode::WholeStream) =~= lines,
{
}

/// Law: under `NumberAllLines` there are exactly as many output lines as
/// input lines, and line `i` bears the number `i + 1`: the emitted numbers
/// start at one and strictly increase, blank lines included.
pub proof fn lemma_number_all_lines(lines: Seq<Seq<char>>)
    ensures
        format_spec(lines, SelectionMode::NumberAllLines).len() == lines.len(),
        forall|i: int|
            0 <= i < lines.len() ==> #[trigger] format_spec(lines, SelectionMode::NumberAllLines)[i]
                == numbered_line((i + 1) as nat, lines[i]),
{
}

/// The non-blank counter never decreases as more lines are read.
pub proof fn lemma_nonblank_count_le(lines: Seq<Seq<char>>, i: int, j: int)
    requires
        0 <= i <= j,
    ensures
        nonblank_count(lines, i) <= nonblank_count(lines, j),
    decreases j - i,
{
    if i < j {
        lemma_nonblank_count_le(lines, i, j - 1);
    }
}

/// Law: under `NumberNonBlankLines` a blank line passes through bare and
/// bears no number; the non-blank line at `i` bears one more than the
/// count of non-blank lines before it, so distinct non-blank lines bear
/// distinct numbers with distinct decimal texts, every number emitted lies
/// between one and the total count of non-blank lines, and as many
/// distinct numbers are emitted as there are non-blank lines.
pub proof fn lemma_number_nonblank_lines(lines: Seq<Seq<char>>)
    ensures
        forall|i: int|
            0 <= i < lines.len() && lines[i].len() == 0 ==> #[trigger] format_spec(
                lines,
                SelectionMode::NumberNonBlankLines,
            )[i] == lines[i],
        forall|i: int|
            0 <= i < lines.len() && lines[i].len() > 0 ==> #[trigger] format_spec(
                lines,
                SelectionMode::NumberNonBlankLines,
            )[i] == numbered_line(nonblank_count(lines, i) + 1, lines[i]),
        forall|i: int, j: int|
            #![trigger nonblank_count(lines, i), nonblank_count(lines, j)]
            0 <= i < j < lines.len() && lines[i].len() > 0 && lines[j].len() > 0
                ==> nonblank_count(lines, i) + 1 < nonblank_count(lines, j) + 1,
        forall|i: int, j: int|
            #![trigger dec_rep((nonblank_count(lines, i) + 1) as nat), dec_rep((nonblank_count(lines, j) + 1) as nat)]
            0 <= i < j < lines.len() && lines[i].len() > 0 && lines[j].len() > 0 ==> dec_rep(
                (nonblank_count(lines, i) + 1) as nat,
            ) != dec_rep((nonblank_count(lines, j) + 1) as nat),
        forall|i: int|
            0 <= i < lines.len() && lines[i].len() > 0 ==> 1 <= #[trigger] nonblank_count(lines, i)
                + 1 <= nonblank_count(lines, lines.len() as int),
{
    assert forall|i: int, j: int|
        #![trigger nonblank_count(lines, i), nonblank_count(lines, j)]
        0 <= i < j < lines.len() && lines[i].len() > 0 && lines[j].len() > 0 implies nonblank_count(
        lines,
        i,
    ) + 1 < nonblank_count(lines, j) + 1 by {
        assert(nonblank_count(lines, i + 1) == nonblank_count(lines, i) + 1);
        lemma_nonblank_count_le(lines, i + 1, j);
    }
    assert forall|i: int, j: int|
        #![trigger dec_rep((nonblank_count(lines, i) + 1) as nat), dec_rep((nonblank_count(lines, j) + 1) as nat)]
        0 <= i < j < lines.len() && lines[i].len() > 0 && lines[j].len() > 0 implies dec_rep(
        (nonblank_count(lines, i) + 1) as nat,
    ) != dec_rep((nonblank_count(lines, j) + 1) as nat) by {
        let m = (nonblank_count(lines, i) + 1) as nat;
        let n = (nonblank_count(lines, j) + 1) as nat;
        if dec_rep(m) == dec_rep(n) {
            lemma_dec_rep_injective(m, n);
        }
    }
    assert forall|i: int|
        0 <= i < lines.len() && lines[i].len() > 0 implies 1 <= #[trigger] nonblank_count(lines, i)
        + 1 <= nonblank_count(lines, lines.len() as int) by {
        assert(nonblank_count(lines, i + 1) == nonblank_count(lines, i) + 1);
        lemma_nonblank_count_le(lines, i + 1, lines.len() as int);
    }
}

/// Law: a source that fails to open contributes nothing to the output of a
/// cat-like run; removing it leaves the output of the remaining sources
/// unchanged.
pub proof fn lemma_failed_source_output_unchanged(
    sources: Seq<Source>,
    i: int,
    mode: SelectionMode,
)
    requires
        0 <= i < sources.len(),
        sources[i].data is Err,
    ensures
        run_out_spec(sources.remove(i), mode) == run_out_spec(sources, mode),
    decreases sources.len(),
{
    if i == sources.len() - 1 {
        assert(sources.remove(i) =~= sources.drop_last());
    } else {
        lemma_failed_source_output_unchanged(sources.drop_last(), i, mode);
        assert(sources.remove(i).drop_last() =~= sources.drop_last().remove(i));
        assert(sources.remove(i).last() == sources.last());
    }
}

/// Law: a source that fails to open is reported: the diagnostics of a
/// cat-like run contain a message carrying its token and cause, and the
/// token stands in that message just after the fixed prefix.
pub proof fn lemma_failed_source_reported(sources: Seq<Source>, i: int)
    requires
        0 <= i < sources.len(),
        sources[i].data is Err,
    ensures
        run_diags_spec(sources).contains(
            open_fail_msg(sources[i].token@, sources[i].data->Err_0@),
        ),
        open_fail_msg(sources[i].token@, sources[i].data->Err_0@).subrange(
            15,
            15 + sources[i].token@.len() as int,
        ) == sources[i].token@,
    decreases sources.len(),
{
    let msg = open_fail_msg(sources[i].token@, sources[i].data->Err_0@);
    if i == sources.len() - 1 {
        let ds = run_diags_spec(sources);
        assert(ds[ds.len() - 1] == msg);
    } else {
        lemma_failed_source_reported(sources.drop_last(), i);
        assert(sources.drop_last()[i] == sources[i]);
        let ds = run_diags_spec(sources.drop_last());
        let k = choose|k: int| 0 <= k < ds.len() && ds[k] == msg;
        assert(run_diags_spec(sources)[k] == msg);
    }
    reveal_strlit("Failed to open ");
    assert(("Failed to open "@).len() == 15);
    assert(msg.subrange(15, 15 + sources[i].token@.len() as int) =~= sources[i].token@);
}

} // verus!
