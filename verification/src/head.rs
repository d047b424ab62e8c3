//! The head-like bounded reader: validated line and byte limits, per-source
//! truncation, and the multi-source layout with banners and separators.
use crate::SelectionMode;
use crate::numbers::dec_value;
use crate::numbers::parse_positive_int;
use crate::numbers::positive_int_text;
use vstd::prelude::*;
use vstd::string::StringExecFns;
use vstd::utf8::decode_utf8;
use vstd::utf8::valid_utf8;

verus! {

/// The index at which a prefix of length at most `n` of a sequence of
/// length `len` ends.
pub open spec fn capped(len: nat, n: nat) -> int {
    if n <= len {
        n as int
    } else {
        len as int
    }
}

/// A validated head-like configuration: the source tokens in order and the
/// limit chosen once from the line and byte options.
#[derive(Debug)]
pub struct Config {
    pub files: Vec<String>,
    pub mode: SelectionMode,
}

impl Config {
    /// A head-like configuration carries at least one source token and a
    /// strictly positive line or byte limit.
    pub open spec fn wf(&self) -> bool {
        &&& self.files@.len() > 0
        &&& (self.mode is LineLimit || self.mode is ByteLimit)
        &&& self.mode.wf()
    }

    /// Validate a head-like invocation: at least one source token, at most
    /// one of the line and byte limits, and each limit given as a strictly
    /// positive integer. Without either option the limit is ten lines. A
    /// limit that does not parse is reported with the offending value.
    pub fn new(files: Vec<String>, lines: Option<String>, bytes: Option<String>) -> (r: Result<
        Config,
        String,
    >)
        ensures
            r is Ok <==> (files@.len() > 0 && !(lines is Some && bytes is Some) && (lines is Some
                ==> positive_int_text(lines->0@)) && (bytes is Some ==> positive_int_text(
                bytes->0@,
            ))),
            r is Ok ==> r->Ok_0.files == files && r->Ok_0.wf(),
            r is Ok && bytes is Some ==> r->Ok_0.mode == SelectionMode::ByteLimit(
                dec_value(bytes->0@) as usize,
            ),
            r is Ok && bytes is None && lines is Some ==> r->Ok_0.mode == SelectionMode::LineLimit(
                dec_value(lines->0@) as usize,
            ),
            r is Ok && bytes is None && lines is None ==> r->Ok_0.mode == SelectionMode::LineLimit(
                10,
            ),
            files@.len() > 0 && !(lines is Some && bytes is Some) && bytes is Some
                && !positive_int_text(bytes->0@) ==> r is Err && r->Err_0@
                == "illegal byte count -- "@ + bytes->0@,
            files@.len() > 0 && bytes is None && lines is Some && !positive_int_text(lines->0@)
                ==> r is Err && r->Err_0@ == "illegal line count -- "@ + lines->0@,
    {
        if files.len() == 0 {
            return Err(String::from_str("no input files given"));
        }
        if lines.is_some() && bytes.is_some() {
            return Err(String::from_str("the line and byte limits conflict"));
        }
        match bytes {
            Some(b) => match parse_positive_int(b.as_str()) {
                Ok(n) => Ok(Config { files, mode: SelectionMode::ByteLimit(n) }),
                Err(e) => {
                    let mut m = String::from_str("illegal byte count -- ");
                    m.append(e.as_str());
                    proof {
                        assert(m@ =~= "illegal byte count -- "@ + b@);
                    }
                    Err(m)
                },
            },
            None => match lines {
                Some(l) => match parse_positive_int(l.as_str()) {
                    Ok(n) => Ok(Config { files, mode: SelectionMode::LineLimit(n) }),
                    Err(e) => {
                        let mut m = String::from_str("illegal line count -- ");
                        m.append(e.as_str());
                        proof {
                            assert(m@ =~= "illegal line count -- "@ + l@);
                        }
                        Err(m)
                    },
                },
                None => Ok(Config { files, mode: SelectionMode::LineLimit(10) }),
            },
        }
    }
}

/// What one opened source yielded: its lines with their own line endings
/// kept, under a line limit; or its raw bytes, under a byte limit.
pub enum HeadBody {
    Lines(Vec<String>),
    Bytes(Vec<u8>),
}

/// One source of a run: its token and either its content or the cause of
/// its open failure.
pub struct Source {
    pub token: String,
    pub data: Result<HeadBody, String>,
}

/// What a head-like run emits: the output text, and one diagnostic per
/// source that could not be opened.
pub struct RunOutput {
    pub out: String,
    pub diagnostics: Vec<String>,
}

/// The lines of one source joined back together; each line carries its
/// own ending, so this is the source's text.
pub open spec fn concat_texts(lines: Seq<Seq<char>>) -> Seq<char>
    decreases lines.len(),
{
    if lines.len() == 0 {
        Seq::<char>::empty()
    } else {
        concat_texts(lines.drop_last()) + lines.last()
    }
}

/// What `String::from_utf8_lossy` decodes the bytes to. The decoded text
/// depends on the bytes alone.
pub uninterp spec fn lossy_decode(bytes: Seq<u8>) -> Seq<char>;

/// Relies on `String::from_utf8_lossy`: the decoded text is a function of
/// the bytes alone, and bytes that are valid UTF-8 decode to exactly the
/// characters they encode; invalid sequences are replaced rather than
/// failing.
#[verifier::external_body]
pub(crate) fn decode_lossy(bytes: &Vec<u8>) -> (r: String)
    ensures
        r@ == lossy_decode(bytes@),
        valid_utf8(bytes@) ==> r@ == decode_utf8(bytes@),
{
    String::from_utf8_lossy(bytes.as_slice()).into_owned()
}

/// Keep at most the first `n` lines of one source, verbatim: the output
/// never exceeds `n` lines, and a source with at most `n` lines passes
/// through whole.
pub fn limit_lines(lines: &Vec<String>, n: usize) -> (r: Vec<String>)
    ensures
        r.deep_view() == lines.deep_view().take(capped(lines@.len() as nat, n as nat)),
        r@.len() <= n,
        lines@.len() <= n ==> r.deep_view() == lines.deep_view(),
{
    let ghost dv = lines.deep_view();
    let m = if n <= lines.len() {
        n
    } else {
        lines.len()
    };
    let mut r: Vec<String> = Vec::new();
    let mut i: usize = 0;
    while i < m
        invariant
            dv == lines.deep_view(),
            dv.len() == lines@.len(),
            m <= lines@.len(),
            i <= m,
            r@.len() == i,
            forall|j: int| 0 <= j < i ==> #[trigger] r@[j]@ == lines@[j]@,
        decreases m - i,
    {
        r.push(lines[i].clone());
        i = i + 1;
    }
    proof {
        assert(r.deep_view() =~= dv.take(m as int)) by {
            assert forall|j: int| 0 <= j < m implies #[trigger] r.deep_view()[j] == dv.take(
                m as int,
            )[j] by {
                assert(r@[j]@ == lines@[j]@);
                assert(dv[j] == lines@[j]@);
            }
        }
        if lines@.len() <= n {
            assert(dv.take(capped(lines@.len() as nat, n as nat)) =~= dv);
        }
    }
    r
}

/// Keep at most the first `n` bytes of one source: byte-exact truncation,
/// with no snapping to line boundaries.
pub fn limit_bytes(bytes: &Vec<u8>, n: usize) -> (r: Vec<u8>)
    ensures
        r@ == bytes@.take(capped(bytes@.len() as nat, n as nat)),
        r@.len() <= n,
{
    let m = if n <= bytes.len() {
        n
    } else {
        bytes.len()
    };
    let mut r: Vec<u8> = Vec::new();
    let mut i: usize = 0;
    while i < m
        invariant
            m <= bytes@.len(),
            i <= m,
            r@ == bytes@.take(i as int),
        decreases m - i,
    {
        r.push(bytes[i]);
        i = i + 1;
        proof {
            assert(r@ =~= bytes@.take(i as int));
        }
    }
    r
}

/// Join the lines of one source back into its text.
pub fn concat_lines(lines: &Vec<String>) -> (r: String)
    ensures
        r@ == concat_texts(lines.deep_view()),
{
    let ghost dv = lines.deep_view();
    let mut r = String::new();
    let mut i: usize = 0;
    while i < lines.len()
        invariant
            dv == lines.deep_view(),
            dv.len() == lines@.len(),
            i <= lines@.len(),
            r@ == concat_texts(dv.take(i as int)),
        decreases lines@.len() - i,
    {
        r.append(lines[i].as_str());
        i = i + 1;
        proof {
            assert(dv.take(i as int).drop_last() =~= dv.take(i - 1));
            assert(dv.take(i as int).last() == dv[i - 1]);
        }
    }
    proof {
        assert(dv.take(lines@.len() as int) =~= dv);
    }
    r
}

/// Decode at most the first `n` bytes of one source as text, best-effort:
/// a valid UTF-8 prefix decodes to exactly its characters, and invalid
/// sequences are replaced rather than failing.
pub fn head_bytes(bytes: &Vec<u8>, n: usize) -> (r: String)
    ensures
        r@ == lossy_decode(bytes@.take(capped(bytes@.len() as nat, n as nat))),
        valid_utf8(bytes@.take(capped(bytes@.len() as nat, n as nat))) ==> r@ == decode_utf8(
            bytes@.take(capped(bytes@.len() as nat, n as nat)),
        ),
{
    let limited = limit_bytes(bytes, n);
    decode_lossy(&limited)
}

/// The banner that precedes a source's output when more than one source
/// was named.
pub open spec fn banner(token: Seq<char>) -> Seq<char> {
    "==> "@ + token + " <==\n"@
}

/// Render the banner line for one source token.
pub fn banner_line(token: &str) -> (r: String)
    ensures
        r@ == banner(token@),
{
    let mut r = String::from_str("==> ");
    r.append(token);
    r.append(" <==\n");
    proof {
        assert(r@ =~= banner(token@));
    }
    r
}

/// The diagnostic for a source token that could not be opened, carrying
/// the token and the underlying cause.
pub open spec fn source_fail_msg(token: Seq<char>, cause: Seq<char>) -> Seq<char> {
    token + ": "@ + cause
}

/// Render the diagnostic for one open failure.
pub fn source_fail_message(token: &str, cause: &str) -> (r: String)
    ensures
        r@ == source_fail_msg(token@, cause@),
{
    let mut r = String::from_str("");
    r.append(token);
    r.append(": ");
    r.append(cause);
    proof {
        reveal_strlit("");
        assert(r@ =~= source_fail_msg(token@, cause@));
    }
    r
}

/// The limited content of one opened source: its first lines under a line
/// limit, or its decoded first bytes under a byte limit. A body of the
/// wrong shape for the mode yields nothing; a run pairs line limits with
/// line bodies and byte limits with byte bodies.
pub open spec fn content_out(body: HeadBody, mode: SelectionMode) -> Seq<char> {
    match (body, mode) {
        (HeadBody::Lines(ls), SelectionMode::LineLimit(n)) => concat_texts(
            ls.deep_view().take(capped(ls@.len() as nat, n as nat)),
        ),
        (HeadBody::Bytes(bs), SelectionMode::ByteLimit(n)) => lossy_decode(
            bs@.take(capped(bs@.len() as nat, n as nat)),
        ),
        _ => Seq::<char>::empty(),
    }
}

/// How many of the sources opened.
pub open spec fn opened_count(sources: Seq<Source>) -> nat
    decreases sources.len(),
{
    if sources.len() == 0 {
        0
    } else {
        opened_count(sources.drop_last()) + (if sources.last().data is Ok {
            1nat
        } else {
            0nat
        })
    }
}

/// What one source adds to the output: nothing when it failed to open;
/// otherwise one separating blank line when any source was opened before
/// it, its banner when more than one source was named, and its limited
/// content.
pub open spec fn chunk_out(
    source: Source,
    opened_before: nat,
    many: bool,
    mode: SelectionMode,
) -> Seq<char> {
    match source.data {
        Ok(body) => (if opened_before > 0 {
            seq!['\n']
        } else {
            Seq::<char>::empty()
        }) + (if many {
            banner(source.token@)
        } else {
            Seq::<char>::empty()
        }) + content_out(body, mode),
        Err(_) => Seq::<char>::empty(),
    }
}

/// The output of a whole head-like run, source by source in order.
pub open spec fn head_out_spec(sources: Seq<Source>, many: bool, mode: SelectionMode) -> Seq<char>
    decreases sources.len(),
{
    if sources.len() == 0 {
        Seq::<char>::empty()
    } else {
        head_out_spec(sources.drop_last(), many, mode) + chunk_out(
            sources.last(),
            opened_count(sources.drop_last()),
            many,
            mode,
        )
    }
}

/// The diagnostics of a whole head-like run: one open-failure message per
/// failed source, in source order.
pub open spec fn head_diags_spec(sources: Seq<Source>) -> Seq<Seq<char>>
    decreases sources.len(),
{
    if sources.len() == 0 {
        Seq::<Seq<char>>::empty()
    } else {
        head_diags_spec(sources.drop_last()) + (match sources.last().data {
            Ok(_) => Seq::<Seq<char>>::empty(),
            Err(e) => seq![source_fail_msg(sources.last().token@, e@)],
        })
    }
}

/// Process the sources of a head-like run in order: each opened source is
/// preceded by a blank separator line when it is not the first to open and
/// by its banner when more than one source was named, then contributes its
/// limited content; each source that failed to open yields one diagnostic
/// and is skipped, so one unreadable source never aborts the rest.
pub fn run(mode: &SelectionMode, sources: &Vec<Source>) -> (r: RunOutput)
    ensures
        r.out@ == head_out_spec(sources@, sources@.len() > 1, *mode),
        r.diagnostics.deep_view() == head_diags_spec(sources@),
{
    let many = sources.len() > 1;
    let mut out = String::new();
    let mut diags: Vec<String> = Vec::new();
    let mut opened: usize = 0;
    let mut i: usize = 0;
    while i < sources.len()
        invariant
            i <= sources@.len(),
            many == (sources@.len() > 1),
            opened == opened_count(sources@.subrange(0, i as int)),
            opened <= i,
            out@ == head_out_spec(sources@.subrange(0, i as int), many, *mode),
            diags.deep_view() == head_diags_spec(sources@.subrange(0, i as int)),
        decreases sources@.len() - i,
    {
        let ghost prev_out = out@;
        let ghost prev_diags = diags.deep_view();
        let ghost prev_opened = opened_count(sources@.subrange(0, i as int));
        let source = &sources[i];
        match &source.data {
            Ok(body) => {
                if opened > 0 {
                    out.append("\n");
                }
                if many {
                    let b = banner_line(source.token.as_str());
                    out.append(b.as_str());
                }
                match (mode, body) {
                    (SelectionMode::LineLimit(n), HeadBody::Lines(ls)) => {
                        let limited = limit_lines(ls, *n);
                        let text = concat_lines(&limited);
                        out.append(text.as_str());
                    },
                    (SelectionMode::ByteLimit(n), HeadBody::Bytes(bs)) => {
                        let text = head_bytes(bs, *n);
                        out.append(text.as_str());
                    },
                    _ => {},
                }
                opened = opened + 1;
                proof {
                    reveal_strlit("\n");
                    assert(out@ =~= prev_out + chunk_out(
                        sources@[i as int],
                        prev_opened,
                        many,
                        *mode,
                    ));
                }
            },
            Err(e) => {
                let msg = source_fail_message(source.token.as_str(), e.as_str());
                diags.push(msg);
                proof {
                    assert(diags.deep_view() =~= prev_diags.push(msg@)) by {
                        assert forall|j: int| 0 <= j < diags@.len() implies #[trigger] diags.deep_view()[j]
                            == prev_diags.push(msg@)[j] by {
                        }
                    }
                }
            },
        }
        i = i + 1;
        proof {
            let pre = sources@.subrange(0, i - 1);
            let cur = sources@.subrange(0, i as int);
            assert(cur.drop_last() =~= pre);
            assert(cur.last() == sources@[i - 1]);
            assert(out@ =~= head_out_spec(cur, many, *mode));
            assert(diags.deep_view() =~= head_diags_spec(cur));
        }
    }
    proof {
        assert(sources@.subrange(0, sources@.len() as int) =~= sources@);
    }
    RunOutput { out, diagnostics: diags }
}

/// Law: a head-like run over exactly the sources `[a, b]`, both opened,
/// emits a's banner, a's limited content, one separating blank line, b's
/// banner, then b's limited content — with no leading blank line and
/// nothing after b's content.
pub proof fn lemma_two_source_layout(a: Source, b: Source, mode: SelectionMode)
    requires
        a.data is Ok,
        b.data is Ok,
    ensures
        head_out_spec(seq![a, b], true, mode) == banner(a.token@) + content_out(
            a.data->Ok_0,
            mode,
        ) + seq!['\n'] + banner(b.token@) + content_out(b.data->Ok_0, mode),
{
    let s = seq![a, b];
    let sa = seq![a];
    assert(s.drop_last() =~= sa);
    assert(s.last() == b);
    assert(sa.drop_last() =~= Seq::<Source>::empty());
    assert(sa.last() == a);
    assert(opened_count(Seq::<Source>::empty()) == 0);
    assert(head_out_spec(Seq::<Source>::empty(), true, mode) == Seq::<char>::empty());
    assert(chunk_out(a, 0, true, mode) =~= banner(a.token@) + content_out(a.data->Ok_0, mode));
    assert(opened_count(sa) == 1);
    assert(head_out_spec(sa, true, mode) =~= banner(a.token@) + content_out(a.data->Ok_0, mode));
    assert(chunk_out(b, 1, true, mode) =~= seq!['\n'] + banner(b.token@) + content_out(
        b.data->Ok_0,
        mode,
    ));
    assert(head_out_spec(s, true, mode) =~= banner(a.token@) + content_out(a.data->Ok_0, mode)
        + seq!['\n'] + banner(b.token@) + content_out(b.data->Ok_0, mode));
}

/// The count of opened sources is unchanged by dropping one that failed.
pub proof fn lemma_opened_count_remove_err(sources: Seq<Source>, i: int)
    requires
        0 <= i < sources.len(),
        sources[i].data is Err,
    ensures
        opened_count(sources.remove(i)) == opened_count(sources),
    decreases sources.len(),
{
    if i == sources.len() - 1 {
        assert(sources.remove(i) =~= sources.drop_last());
    } else {
        lemma_opened_count_remove_err(sources.drop_last(), i);
        assert(sources.remove(i).drop_last() =~= sources.drop_last().remove(i));
        assert(sources.remove(i).last() == sources.last());
    }
}

/// Law: a source that fails to open contributes nothing to the output of
/// a head-like run; removing it leaves the output of the remaining
/// sources, their separators and banners included, unchanged.
pub proof fn lemma_failed_source_output_unchanged(
    sources: Seq<Source>,
    i: int,
    many: bool,
    mode: SelectionMode,
)
    requires
        0 <= i < sources.len(),
        sources[i].data is Err,
    ensures
        head_out_spec(sources.remove(i), many, mode) == head_out_spec(sources, many, mode),
    decreases sources.len(),
{
    if i == sources.len() - 1 {
        assert(sources.remove(i) =~= sources.drop_last());
    } else {
        lemma_failed_source_output_unchanged(sources.drop_last(), i, many, mode);
        assert(sources.drop_last()[i] == sources[i]);
        lemma_opened_count_remove_err(sources.drop_last(), i);
        assert(sources.remove(i).drop_last() =~= sources.drop_last().remove(i));
        assert(sources.remove(i).last() == sources.last());
    }
}

/// Law: a source that fails to open is reported: the diagnostics of a
/// head-like run contain a message carrying its token and cause, and the
/// token stands at the front of that message.
pub proof fn lemma_failed_source_reported(sources: Seq<Source>, i: int)
    requires
        0 <= i < sources.len(),
        sources[i].data is Err,
    ensures
        head_diags_spec(sources).contains(
            source_fail_msg(sources[i].token@, sources[i].data->Err_0@),
        ),
        source_fail_msg(sources[i].token@, sources[i].data->Err_0@).subrange(
            0,
            sources[i].token@.len() as int,
        ) == sources[i].token@,
    decreases sources.len(),
{
    let msg = source_fail_msg(sources[i].token@, sources[i].data->Err_0@);
    if i == sources.len() - 1 {
        let ds = head_diags_spec(sources);
        assert(ds[ds.len() - 1] == msg);
    } else {
        lemma_failed_source_reported(sources.drop_last(), i);
        assert(sources.drop_last()[i] == sources[i]);
        let ds = head_diags_spec(sources.drop_last());
        let k = choose|k: int| 0 <= k < ds.len() && ds[k] == msg;
        assert(head_diags_spec(sources)[k] == msg);
    }
    assert(msg.subrange(0, sources[i].token@.len() as int) =~= sources[i].token@);
}

} // verus!
