//! The command-line grammar.
//!
//! A line is one command: a name, a list of parameters (quoted or unquoted),
//! an optional input redirection, an optional output redirection and an
//! optional background marker, in that fixed order, separated by runs of
//! blanks and tabs.  The grammar is modelled by spec functions over the
//! line's character sequence; the executable parser is proved to return
//! exactly what the model says.

use vstd::prelude::*;
use vstd::string::StrSliceExecFns;

verus! {

/// The character sequences of a sequence of strings.
pub open spec fn views_of(ps: Seq<String>) -> Seq<Seq<char>> {
    ps.map_values(|p: String| p@)
}

/// A space character as the grammar understands it: the blank and the tab.
pub open spec fn is_space(c: char) -> bool {
    c == ' ' || c == '\t'
}

/// An ASCII alphanumeric character: the only characters of command names,
/// unquoted parameters and file names (besides the escaped quote).
pub open spec fn is_alnum(c: char) -> bool {
    ('a' <= c && c <= 'z') || ('A' <= c && c <= 'Z') || ('0' <= c && c <= '9')
}

/// What the standard library answers for `char::is_alphanumeric`: a
/// function of the character alone, given by the Unicode tables.
pub uninterp spec fn unicode_alphanumeric(c: char) -> bool;

/// What the standard library answers for `char::is_whitespace`: a
/// function of the character alone, given by the Unicode tables.
pub uninterp spec fn unicode_whitespace(c: char) -> bool;

/// A character allowed between quotes: any alphanumeric or whitespace
/// character, by the standard library's Unicode tables.  The two quote
/// characters are neither alphanumeric nor whitespace, so they are
/// excluded here by definition: the run between quotes always stops at
/// the closing quote.
pub open spec fn is_quoted_inner(c: char) -> bool {
    (unicode_alphanumeric(c) || unicode_whitespace(c)) && c != '"' && c != '\''
}

/// Position of the first non-space character at or after `i`.
pub open spec fn skip_spaces(s: Seq<char>, i: int) -> int
    decreases s.len() - i,
{
    if 0 <= i < s.len() && is_space(s[i]) {
        skip_spaces(s, i + 1)
    } else {
        i
    }
}

/// End of the token starting at `i`: the longest run of alphanumeric
/// characters and verbatim backslash-quote pairs.
pub open spec fn scan_token(s: Seq<char>, i: int) -> int
    decreases s.len() - i,
{
    if 0 <= i < s.len() && is_alnum(s[i]) {
        scan_token(s, i + 1)
    } else if 0 <= i && i + 1 < s.len() && s[i] == '\\' && s[i + 1] == '"' {
        scan_token(s, i + 2)
    } else {
        i
    }
}

/// End of the alphanumeric run starting at `i`.
pub open spec fn scan_alnum(s: Seq<char>, i: int) -> int
    decreases s.len() - i,
{
    if 0 <= i < s.len() && is_alnum(s[i]) {
        scan_alnum(s, i + 1)
    } else {
        i
    }
}

/// End of the run of quote-inner characters starting at `i`.
pub open spec fn scan_inner(s: Seq<char>, i: int) -> int
    decreases s.len() - i,
{
    if 0 <= i < s.len() && is_quoted_inner(s[i]) {
        scan_inner(s, i + 1)
    } else {
        i
    }
}

proof fn lemma_skip_spaces_bounds(s: Seq<char>, i: int)
    requires
        0 <= i <= s.len(),
    ensures
        i <= skip_spaces(s, i) <= s.len(),
    decreases s.len() - i,
{
    if i < s.len() && is_space(s[i]) {
        lemma_skip_spaces_bounds(s, i + 1);
    }
}

proof fn lemma_scan_token_bounds(s: Seq<char>, i: int)
    requires
        0 <= i <= s.len(),
    ensures
        i <= scan_token(s, i) <= s.len(),
    decreases s.len() - i,
{
    if i < s.len() && is_alnum(s[i]) {
        lemma_scan_token_bounds(s, i + 1);
    } else if i + 1 < s.len() && s[i] == '\\' && s[i + 1] == '"' {
        lemma_scan_token_bounds(s, i + 2);
    }
}

proof fn lemma_scan_inner_bounds(s: Seq<char>, i: int)
    requires
        0 <= i <= s.len(),
    ensures
        i <= scan_inner(s, i) <= s.len(),
    decreases s.len() - i,
{
    if i < s.len() && is_quoted_inner(s[i]) {
        lemma_scan_inner_bounds(s, i + 1);
    }
}

/// Ghost description of an input redirection: the file read, installed on
/// the standard input slot.
pub ghost struct InputModel {
    pub filename: Seq<char>,
    pub file_descriptor: u8,
}

/// Ghost description of an output redirection: the file written, whether it
/// is appended to, and the standard stream it replaces (1 or 2).
pub ghost struct OutputModel {
    pub filename: Seq<char>,
    pub append: bool,
    pub file_descriptor: u8,
}

/// Ghost description of one pipeline stage.
pub ghost struct CommandModel {
    pub name: Seq<char>,
    pub pipe: bool,
    pub background: bool,
    pub input_file: Option<InputModel>,
    pub output_file: Option<OutputModel>,
    pub parameters: Seq<Seq<char>>,
}

/// The invariant of a parsed command: the name and every redirection file
/// name are non-empty, an input redirection targets the standard input
/// slot, an output redirection targets the standard output or error slot,
/// and appending happens only on the standard output.
pub open spec fn command_model_wf(m: CommandModel) -> bool {
    &&& m.name.len() > 0
    &&& match m.input_file {
        Some(r) => r.filename.len() > 0 && r.file_descriptor == 0,
        None => true,
    }
    &&& match m.output_file {
        Some(r) => r.filename.len() > 0 && (r.file_descriptor == 1 || r.file_descriptor == 2) && (
        r.append ==> r.file_descriptor == 1),
        None => true,
    }
}

/// A parameter starting at `i`: a quoted run of at least one inner character,
/// or an unquoted token.  The two-character spelling that redirects the error
/// stream is never taken as a parameter, so that the redirection rule can
/// claim it.  Returns the parameter's text and the position after it.
pub open spec fn parse_param(s: Seq<char>, i: int) -> Option<(Seq<char>, int)> {
    if 0 <= i < s.len() && s[i] == '2' && i + 1 < s.len() && s[i + 1] == '>' {
        None
    } else if 0 <= i < s.len() && (s[i] == '"' || s[i] == '\'') {
        let j = scan_inner(s, i + 1);
        if i + 1 < j && j < s.len() && s[j] == s[i] {
            Some((s.subrange(i + 1, j), j + 1))
        } else {
            None
        }
    } else {
        let j = scan_token(s, i);
        if i < j {
            Some((s.subrange(i, j), j))
        } else {
            None
        }
    }
}

proof fn lemma_parse_param_advances(s: Seq<char>, i: int)
    requires
        0 <= i <= s.len(),
    ensures
        match parse_param(s, i) {
            Some((p, k)) => i < k <= s.len(),
            None => true,
        },
{
    if i < s.len() && (s[i] == '"' || s[i] == '\'') {
        lemma_scan_inner_bounds(s, i + 1);
    } else {
        lemma_scan_token_bounds(s, i);
    }
}

/// Parameters after the first one: each needs at least one space before it.
/// A trailing separator that is not followed by a parameter is not consumed.
pub open spec fn parse_params_tail(s: Seq<char>, i: int) -> (Seq<Seq<char>>, int)
    decreases s.len() - i,
    via parse_params_tail_decreases
{
    let j = skip_spaces(s, i);
    if j == i {
        (Seq::empty(), i)
    } else {
        match parse_param(s, j) {
            Some((p, k)) => {
                let (rest, end) = parse_params_tail(s, k);
                (seq![p] + rest, end)
            },
            None => (Seq::empty(), i),
        }
    }
}

#[via_fn]
proof fn parse_params_tail_decreases(s: Seq<char>, i: int) {
    let j = skip_spaces(s, i);
    if j != i {
        assert(0 <= i < s.len());
        lemma_skip_spaces_bounds(s, i);
        lemma_parse_param_advances(s, j);
    }
}

/// The whole parameter list starting at `i`, and the position after it.
pub open spec fn parse_params(s: Seq<char>, i: int) -> (Seq<Seq<char>>, int) {
    match parse_param(s, i) {
        Some((p, k)) => {
            let (rest, end) = parse_params_tail(s, k);
            (seq![p] + rest, end)
        },
        None => (Seq::empty(), i),
    }
}

/// The optional input redirection at `i`: `<`, optional spaces, then a
/// non-empty alphanumeric file name.  `None` is a parse failure; a missing
/// redirection succeeds without moving.
pub open spec fn parse_input_redirect(s: Seq<char>, i: int) -> Option<(Option<InputModel>, int)> {
    if 0 <= i < s.len() && s[i] == '<' {
        let j = skip_spaces(s, i + 1);
        let k = scan_alnum(s, j);
        if j < k {
            Some((Some(InputModel { filename: s.subrange(j, k), file_descriptor: 0 }), k))
        } else {
            None
        }
    } else {
        Some((None, i))
    }
}

/// The file name of an output redirection whose operator ended at `i`.
pub open spec fn parse_output_filename(s: Seq<char>, i: int, append: bool, fd: u8) -> Option<
    (Option<OutputModel>, int),
> {
    let j = skip_spaces(s, i);
    let k = scan_alnum(s, j);
    if j < k {
        Some((Some(OutputModel { filename: s.subrange(j, k), append, file_descriptor: fd }), k))
    } else {
        None
    }
}

/// The optional output redirection at `i`.  The spellings are tried from the
/// most specific down: `2>` (error stream), `>>` (append), `>` (truncate).
pub open spec fn parse_output_redirect(s: Seq<char>, i: int) -> Option<
    (Option<OutputModel>, int),
> {
    if 0 <= i < s.len() && s[i] == '2' && i + 1 < s.len() && s[i + 1] == '>' {
        parse_output_filename(s, i + 2, false, 2)
    } else if 0 <= i < s.len() && s[i] == '>' && i + 1 < s.len() && s[i + 1] == '>' {
        parse_output_filename(s, i + 2, true, 1)
    } else if 0 <= i < s.len() && s[i] == '>' {
        parse_output_filename(s, i + 1, false, 1)
    } else {
        Some((None, i))
    }
}

/// The grammar of one line: optional spaces around a command name, a
/// parameter list, an optional input redirection, an optional output
/// redirection and an optional background marker, in this fixed order.
/// The command succeeds only if the whole line is consumed.
pub open spec fn parse_command_spec(s: Seq<char>) -> Option<CommandModel> {
    let i0 = skip_spaces(s, 0);
    let nend = scan_token(s, i0);
    if nend == i0 {
        None
    } else {
        let (params, ip) = parse_params(s, skip_spaces(s, nend));
        match parse_input_redirect(s, skip_spaces(s, ip)) {
            None => None,
            Some((inp, iq)) => match parse_output_redirect(s, skip_spaces(s, iq)) {
                None => None,
                Some((outp, ir)) => {
                    let ib = skip_spaces(s, ir);
                    let bg = ib < s.len() && s[ib] == '&';
                    let iend = skip_spaces(s, if bg { ib + 1 } else { ib });
                    if iend == s.len() {
                        Some(
                            CommandModel {
                                name: s.subrange(i0, nend),
                                pipe: false,
                                background: bg,
                                input_file: inp,
                                output_file: outp,
                                parameters: params,
                            },
                        )
                    } else {
                        None
                    }
                },
            },
        }
    }
}

/// Parsing consumes every line it accepts, so the remainder of a success is
/// always empty — and the empty string itself is never a command: re-parsing
/// the remainder of a successful parse can never succeed with more output.
pub proof fn lemma_empty_line_rejected()
    ensures
        parse_command_spec(Seq::<char>::empty()) is None,
{
    let s = Seq::<char>::empty();
    assert(skip_spaces(s, 0) == 0);
    assert(scan_token(s, 0) == 0);
}

/// A plain word: non-empty and alphanumeric throughout.
pub open spec fn is_word(w: Seq<char>) -> bool {
    w.len() > 0 && forall|k: int| 0 <= k < w.len() ==> is_alnum(#[trigger] w[k])
}

/// A parameter that can be written between quotes: non-empty, every
/// character the grammar allows between quotes.
pub open spec fn is_quotable(q: Seq<char>) -> bool {
    q.len() > 0 && forall|k: int| 0 <= k < q.len() ==> is_quoted_inner(#[trigger] q[k])
}

/// The canonical spelling of one parameter: plain when it is a word,
/// quoted otherwise — so a parameter with internal whitespace is rendered
/// between quotes, which preserve it.
pub open spec fn render_param(q: Seq<char>) -> Seq<char> {
    if is_word(q) {
        q
    } else {
        seq!['"'] + q + seq!['"']
    }
}

/// The canonical text of a parameter list: each parameter after one space.
pub open spec fn render_params(qs: Seq<Seq<char>>) -> Seq<char>
    decreases qs.len(),
{
    if qs.len() == 0 {
        Seq::empty()
    } else {
        seq![' '] + render_param(qs[0]) + render_params(qs.skip(1))
    }
}

/// The canonical text of a simple command: the name, the parameters each
/// after one space, and the background marker after one more space if the
/// command is backgrounded.
pub open spec fn render_simple(name: Seq<char>, qs: Seq<Seq<char>>, bg: bool) -> Seq<char> {
    name + render_params(qs) + (if bg {
        seq![' ', '&']
    } else {
        Seq::empty()
    })
}

proof fn lemma_scan_token_run(s: Seq<char>, i: int, j: int)
    requires
        0 <= i <= j <= s.len(),
        forall|k: int| i <= k < j ==> is_alnum(#[trigger] s[k]),
        j < s.len() ==> !is_alnum(s[j]) && s[j] != '\\',
    ensures
        scan_token(s, i) == j,
    decreases j - i,
{
    if i < j {
        lemma_scan_token_run(s, i + 1, j);
    }
}

proof fn lemma_scan_inner_run(s: Seq<char>, i: int, j: int)
    requires
        0 <= i <= j <= s.len(),
        forall|k: int| i <= k < j ==> is_quoted_inner(#[trigger] s[k]),
        j < s.len() ==> !is_quoted_inner(s[j]),
    ensures
        scan_inner(s, i) == j,
    decreases j - i,
{
    if i < j {
        lemma_scan_inner_run(s, i + 1, j);
    }
}

/// A canonically spelled parameter followed by a space, a quote or the end
/// of the line is parsed as exactly that parameter: plain words as
/// themselves, quoted parameters as what stands between the quotes,
/// internal whitespace preserved.
proof fn lemma_parse_rendered_param(s: Seq<char>, i: int, q: Seq<char>)
    requires
        0 <= i,
        i + render_param(q).len() <= s.len(),
        is_word(q) || is_quotable(q),
        s.subrange(i, i + render_param(q).len() as int) == render_param(q),
        i + render_param(q).len() == s.len() || s[i + render_param(q).len()] == ' ' || s[i
            + render_param(q).len()] == '"',
    ensures
        parse_param(s, i) == Some((q, i + render_param(q).len() as int)),
{
    let rq = render_param(q);
    let e = i + rq.len() as int;
    assert forall|k: int| i <= k < e implies s[k] == rq[k - i] by {
        assert(s.subrange(i, e)[k - i] == s[k]);
    }
    if is_word(q) {
        assert(rq == q);
        assert forall|k: int| i <= k < e implies is_alnum(#[trigger] s[k]) by {
            assert(s[k] == q[k - i]);
        }
        assert(s[i] == q[0]);
        assert(is_alnum(s[i]));
        if i + 1 < s.len() && s[i] == '2' && s[i + 1] == '>' {
            if q.len() >= 2 {
                assert(is_alnum(s[i + 1]));
                assert(false);
            } else {
                assert(e == i + 1);
                assert(false);
            }
        }
        lemma_scan_token_run(s, i, e);
        assert(s.subrange(i, e) =~= q);
        assert(parse_param(s, i) == Some((s.subrange(i, e), e)));
    } else {
        assert(rq == seq!['"'] + q + seq!['"']);
        assert(rq.len() == q.len() + 2);
        assert(s[i] == rq[0]);
        assert(s[i] == '"');
        let close = i + 1 + q.len() as int;
        assert forall|w: int| 0 <= w < q.len() implies s[i + 1 + w] == q[w] by {
            assert(s[i + (1 + w)] == rq[1 + w]);
            assert(rq[1 + w] == (seq!['"'] + q)[1 + w]);
        }
        assert(s[close] == rq[1 + q.len() as int]);
        assert(s[close] == '"');
        assert(!is_quoted_inner('"'));
        assert forall|k: int| i + 1 <= k < close implies is_quoted_inner(#[trigger] s[k]) by {
            assert(s[k] == q[k - (i + 1)]);
        }
        lemma_scan_inner_run(s, i + 1, close);
        assert(s.subrange(i + 1, close) =~= q);
        assert(parse_param(s, i) == Some((s.subrange(i + 1, close), close + 1)));
    }
}

/// What may stand after a canonical parameter list: nothing, the
/// background marker after one space, or a stray quote after either — the
/// stray quote stands for trailing input no grammar element can begin
/// with, which the parameter list must leave unconsumed.
spec fn list_terminator(s: Seq<char>, e: int) -> bool {
    ||| e == s.len()
    ||| (e + 2 == s.len() && s[e] == ' ' && s[e + 1] == '&')
    ||| (e + 1 == s.len() && s[e] == '"')
    ||| (e + 3 == s.len() && s[e] == ' ' && s[e + 1] == '&' && s[e + 2] == '"')
}

/// The rest of a canonical parameter list, each parameter after one space
/// and nothing else until the terminator, parses to exactly those
/// parameters.
proof fn lemma_params_tail_render(s: Seq<char>, i: int, qs: Seq<Seq<char>>, e: int)
    requires
        0 <= i <= e <= s.len(),
        forall|k: int| 0 <= k < qs.len() ==> is_word(#[trigger] qs[k]) || is_quotable(qs[k]),
        s.subrange(i, e) == render_params(qs),
        list_terminator(s, e),
    ensures
        parse_params_tail(s, i) == (qs, e),
    decreases qs.len(),
{
    if qs.len() == 0 {
        assert(render_params(qs).len() == 0);
        assert(i == e);
        if i == s.len() {
            assert(skip_spaces(s, i) == i);
            assert(parse_params_tail(s, i) == (Seq::<Seq<char>>::empty(), i));
        } else if s[i] == '"' {
            assert(skip_spaces(s, i) == i);
            assert(parse_params_tail(s, i) == (Seq::<Seq<char>>::empty(), i));
        } else {
            assert(s[i] == ' ' && s[i + 1] == '&');
            assert(i + 2 == s.len() || (i + 3 == s.len() && s[i + 2] == '"'));
            assert(skip_spaces(s, i + 1) == i + 1);
            assert(skip_spaces(s, i) == i + 1);
            assert(scan_token(s, i + 1) == i + 1);
            assert(parse_param(s, i + 1) is None);
            assert(parse_params_tail(s, i) == (Seq::<Seq<char>>::empty(), i));
        }
        assert(Seq::<Seq<char>>::empty() =~= qs);
    } else {
        let q = qs[0];
        let rq = render_param(q);
        let rp = render_params(qs);
        let rest = render_params(qs.skip(1));
        assert(rp == seq![' '] + rq + rest);
        assert(rp.len() == 1 + rq.len() + rest.len());
        assert(e - i == rp.len());
        let p = i + 1;
        let k0 = p + rq.len() as int;
        assert(s[i] == rp[0]) by {
            assert(s.subrange(i, e)[0] == s[i]);
        }
        assert(s[i] == ' ');
        assert forall|w: int| 0 <= w < rq.len() implies s[p + w] == rq[w] by {
            assert(s.subrange(i, e)[1 + w] == s[p + w]);
            assert(rp[1 + w] == (seq![' '] + rq)[1 + w]);
        }
        assert(s.subrange(p, k0) =~= rq);
        assert(s.subrange(k0, e) =~= rest) by {
            assert forall|w: int| 0 <= w < rest.len() implies s[k0 + w] == rest[w] by {
                assert(s.subrange(i, e)[1 + rq.len() + w] == s[k0 + w]);
                assert(rp[1 + rq.len() + w] == rest[w]);
            }
        }
        // the character after the parameter: a separating space, the
        // terminator, or the line's end
        assert(k0 == s.len() || s[k0] == ' ' || s[k0] == '"') by {
            if k0 < e {
                assert(rest.len() > 0);
                assert(rest[0] == ' ') by {
                    assert(rest == seq![' '] + render_param(qs.skip(1)[0]) + render_params(
                        qs.skip(1).skip(1),
                    ));
                }
                assert(s[k0] == rest[0]);
            } else {
                assert(k0 == e);
            }
        }
        assert(!is_space(s[p])) by {
            assert(s[p] == rq[0]);
            if is_word(q) {
                assert(rq[0] == q[0]);
                assert(is_alnum(q[0]));
            } else {
                assert(rq[0] == '"');
            }
        }
        assert(skip_spaces(s, p) == p);
        assert(skip_spaces(s, i) == p);
        lemma_parse_rendered_param(s, p, q);
        lemma_params_tail_render(s, k0, qs.skip(1), e);
        assert(parse_params_tail(s, i) == (seq![q] + qs.skip(1), e));
        assert(seq![q] + qs.skip(1) =~= qs);
    }
}

/// A canonical parameter list standing at `p` — the first parameter
/// directly, each later one after one space — parses to exactly those
/// parameters, ending at the terminator.
proof fn lemma_params_render(s: Seq<char>, p: int, qs: Seq<Seq<char>>, e: int)
    requires
        qs.len() > 0,
        0 <= p,
        p + render_param(qs[0]).len() <= e <= s.len(),
        forall|k: int| 0 <= k < qs.len() ==> is_word(#[trigger] qs[k]) || is_quotable(qs[k]),
        s.subrange(p, p + render_param(qs[0]).len() as int) == render_param(qs[0]),
        s.subrange(p + render_param(qs[0]).len() as int, e) == render_params(qs.skip(1)),
        list_terminator(s, e),
    ensures
        parse_params(s, p) == (qs, e),
{
    let q = qs[0];
    let rq = render_param(q);
    let k0 = p + rq.len() as int;
    let rest = render_params(qs.skip(1));
    assert(rest.len() == e - k0);
    assert(k0 == s.len() || s[k0] == ' ' || s[k0] == '"') by {
        if k0 < e {
            assert(rest.len() > 0);
            assert(rest[0] == ' ') by {
                assert(rest == seq![' '] + render_param(qs.skip(1)[0]) + render_params(
                    qs.skip(1).skip(1),
                ));
            }
            assert(s.subrange(k0, e)[0] == s[k0]);
        } else {
            assert(k0 == e);
        }
    }
    lemma_parse_rendered_param(s, p, q);
    lemma_params_tail_render(s, k0, qs.skip(1), e);
    assert(parse_params(s, p) == (seq![q] + qs.skip(1), e));
    assert(seq![q] + qs.skip(1) =~= qs);
}

/// Every valid simple command is parsed exactly: a canonical line holding
/// a word as the command name, then parameters in order — plain words as
/// they are, parameters with internal whitespace between quotes, which
/// preserve it — then the optional background marker, yields a single
/// command with that name, those parameters in that order, that background
/// flag, no redirections and no successor stage.
#[verifier::rlimit(100)]
pub proof fn lemma_parse_simple_command(name: Seq<char>, qs: Seq<Seq<char>>, bg: bool)
    requires
        is_word(name),
        forall|k: int| 0 <= k < qs.len() ==> is_word(#[trigger] qs[k]) || is_quotable(qs[k]),
    ensures
        parse_command_spec(render_simple(name, qs, bg)) == Some(
            CommandModel {
                name: name,
                pipe: false,
                background: bg,
                input_file: None,
                output_file: None,
                parameters: qs,
            },
        ),
{
    let s = render_simple(name, qs, bg);
    let rp = render_params(qs);
    let nl = name.len() as int;
    let e = nl + rp.len() as int;
    let t = if bg {
        seq![' ', '&']
    } else {
        Seq::<char>::empty()
    };
    assert(s == name + rp + t);
    assert(s.len() == e + t.len());
    assert forall|k: int| 0 <= k < nl implies s[k] == name[k] by {}
    assert forall|k: int| 0 <= k < rp.len() implies s[nl + k] == rp[k] by {}
    assert forall|k: int| 0 <= k < t.len() implies s[e + k] == t[k] by {}

    // the name is scanned as the command token
    assert(is_alnum(s[0]));
    assert(skip_spaces(s, 0) == 0);
    assert(nl == s.len() || s[nl] == ' ') by {
        if qs.len() > 0 {
            assert(rp == seq![' '] + render_param(qs[0]) + render_params(qs.skip(1)));
            assert(s[nl] == rp[0]);
        } else if bg {
            assert(rp.len() == 0);
            assert(s[nl] == t[0]);
        }
    }
    lemma_scan_token_run(s, 0, nl);
    assert(s.subrange(0, nl) =~= name);

    // the parameters
    if qs.len() == 0 {
        assert(rp.len() == 0);
        if bg {
            assert(s[nl] == ' ' && s[nl + 1] == '&' && nl + 2 == s.len());
            assert(skip_spaces(s, nl + 1) == nl + 1);
            assert(skip_spaces(s, nl) == nl + 1);
            assert(scan_token(s, nl + 1) == nl + 1);
            assert(parse_param(s, nl + 1) is None);
            assert(parse_params(s, nl + 1) == (Seq::<Seq<char>>::empty(), nl + 1));
            assert(Seq::<Seq<char>>::empty() =~= qs);
            let ip = nl + 1;
            assert(skip_spaces(s, ip) == ip);
            assert(parse_input_redirect(s, ip) == Some((None::<InputModel>, ip)));
            assert(parse_output_redirect(s, ip) == Some((None::<OutputModel>, ip)));
            assert(s[ip] == '&');
            assert(skip_spaces(s, ip + 1) == ip + 1);
            assert(ip + 1 == s.len());
        } else {
            assert(nl == s.len());
            assert(skip_spaces(s, nl) == nl);
            assert(scan_token(s, nl) == nl);
            assert(parse_param(s, nl) is None);
            assert(parse_params(s, nl) == (Seq::<Seq<char>>::empty(), nl));
            assert(Seq::<Seq<char>>::empty() =~= qs);
            assert(parse_input_redirect(s, nl) == Some((None::<InputModel>, nl)));
            assert(parse_output_redirect(s, nl) == Some((None::<OutputModel>, nl)));
        }
    } else {
        let q = qs[0];
        let rq = render_param(q);
        let rest = render_params(qs.skip(1));
        assert(rp == seq![' '] + rq + rest);
        let p = nl + 1;
        let k0 = p + rq.len() as int;
        assert(s[nl] == ' ');
        assert forall|w: int| 0 <= w < rq.len() implies s[p + w] == rq[w] by {
            assert(s[nl + (1 + w)] == rp[1 + w]);
            assert(rp[1 + w] == (seq![' '] + rq)[1 + w]);
        }
        assert(s.subrange(p, k0) =~= rq);
        assert(s.subrange(k0, e) =~= rest) by {
            assert forall|w: int| 0 <= w < rest.len() implies s[k0 + w] == rest[w] by {
                assert(s[nl + (1 + rq.len() + w)] == rp[1 + rq.len() + w]);
                assert(rp[1 + rq.len() + w] == rest[w]);
            }
        }
        assert(!is_space(s[p])) by {
            assert(s[p] == rq[0]);
            if is_word(q) {
                assert(rq[0] == q[0]);
                assert(is_alnum(q[0]));
            } else {
                assert(rq[0] == '"');
            }
        }
        assert(skip_spaces(s, p) == p);
        assert(skip_spaces(s, nl) == p);
        assert(e == s.len() || (e + 2 == s.len() && s[e] == ' ' && s[e + 1] == '&')) by {
            if bg {
                assert(s[e] == t[0] && s[e + 1] == t[1]);
            }
        }
        lemma_params_render(s, p, qs, e);
    }

    // after the parameters: no redirections, then the optional marker
    let ip = parse_params(s, skip_spaces(s, nl)).1;
    if bg {
        assert(s[e] == ' ' && s[e + 1] == '&' && e + 2 == s.len());
        if qs.len() > 0 {
            assert(ip == e);
            assert(skip_spaces(s, e + 1) == e + 1);
            assert(skip_spaces(s, e) == e + 1);
            let ib = e + 1;
            assert(s[ib] == '&');
            assert(parse_input_redirect(s, ib) == Some((None::<InputModel>, ib)));
            assert(skip_spaces(s, ib) == ib);
            assert(parse_output_redirect(s, ib) == Some((None::<OutputModel>, ib)));
            assert(skip_spaces(s, ib + 1) == ib + 1);
            assert(ib + 1 == s.len());
        }
    } else {
        assert(ip == e || (qs.len() == 0 && ip == nl));
        assert(ip == s.len());
        assert(skip_spaces(s, ip) == ip);
        assert(parse_input_redirect(s, ip) == Some((None::<InputModel>, ip)));
        assert(parse_output_redirect(s, ip) == Some((None::<OutputModel>, ip)));
    }
}

/// Unconsumed trailing input after a well-formed command is rejected: any
/// canonical simple command followed by a stray unmatched quote is a parse
/// failure, because the grammar must consume the entire line and no
/// element of it can begin at the quote.
#[verifier::rlimit(100)]
pub proof fn lemma_trailing_quote_rejected(name: Seq<char>, qs: Seq<Seq<char>>, bg: bool)
    requires
        is_word(name),
        forall|k: int| 0 <= k < qs.len() ==> is_word(#[trigger] qs[k]) || is_quotable(qs[k]),
    ensures
        parse_command_spec(render_simple(name, qs, bg).push('"')) is None,
{
    let s = render_simple(name, qs, bg).push('"');
    let rp = render_params(qs);
    let nl = name.len() as int;
    let e = nl + rp.len() as int;
    let t = if bg {
        seq![' ', '&']
    } else {
        Seq::<char>::empty()
    };
    assert(s == name + rp + t + seq!['"']);
    assert(s.len() == e + t.len() + 1);
    assert forall|k: int| 0 <= k < nl implies s[k] == name[k] by {}
    assert forall|k: int| 0 <= k < rp.len() implies s[nl + k] == rp[k] by {}
    assert forall|k: int| 0 <= k < t.len() implies s[e + k] == t[k] by {}
    assert(s[s.len() - 1] == '"');

    // the name is still scanned as the command token
    assert(is_alnum(s[0]));
    assert(skip_spaces(s, 0) == 0);
    assert(s[nl] == ' ' || s[nl] == '"') by {
        if qs.len() > 0 {
            assert(rp == seq![' '] + render_param(qs[0]) + render_params(qs.skip(1)));
            assert(s[nl] == rp[0]);
        } else if bg {
            assert(rp.len() == 0);
            assert(s[nl] == t[0]);
        } else {
            assert(nl == s.len() - 1);
        }
    }
    lemma_scan_token_run(s, 0, nl);

    // the parameters are still parsed, ending before the trailer
    if qs.len() == 0 {
        if bg {
            assert(s[nl] == ' ' && s[nl + 1] == '&' && s[nl + 2] == '"' && nl + 3 == s.len());
            assert(skip_spaces(s, nl + 1) == nl + 1);
            assert(skip_spaces(s, nl) == nl + 1);
            assert(scan_token(s, nl + 1) == nl + 1);
            assert(parse_param(s, nl + 1) is None);
            assert(parse_params(s, nl + 1) == (Seq::<Seq<char>>::empty(), nl + 1));
            let ip = nl + 1;
            assert(skip_spaces(s, ip) == ip);
            assert(parse_input_redirect(s, ip) == Some((None::<InputModel>, ip)));
            assert(parse_output_redirect(s, ip) == Some((None::<OutputModel>, ip)));
            assert(s[ip] == '&');
            assert(s[ip + 1] == '"');
            assert(skip_spaces(s, ip + 1) == ip + 1);
            assert(ip + 1 < s.len());
        } else {
            assert(s[nl] == '"' && nl + 1 == s.len());
            assert(skip_spaces(s, nl) == nl);
            assert(scan_inner(s, nl + 1) == nl + 1);
            assert(parse_param(s, nl) is None);
            assert(parse_params(s, nl) == (Seq::<Seq<char>>::empty(), nl));
            assert(parse_input_redirect(s, nl) == Some((None::<InputModel>, nl)));
            assert(parse_output_redirect(s, nl) == Some((None::<OutputModel>, nl)));
            assert(s[nl] != '&');
            assert(nl < s.len());
        }
    } else {
        let q = qs[0];
        let rq = render_param(q);
        let rest = render_params(qs.skip(1));
        assert(rp == seq![' '] + rq + rest);
        let p = nl + 1;
        let k0 = p + rq.len() as int;
        assert(s[nl] == ' ');
        assert forall|w: int| 0 <= w < rq.len() implies s[p + w] == rq[w] by {
            assert(s[nl + (1 + w)] == rp[1 + w]);
            assert(rp[1 + w] == (seq![' '] + rq)[1 + w]);
        }
        assert(s.subrange(p, k0) =~= rq);
        assert(s.subrange(k0, e) =~= rest) by {
            assert forall|w: int| 0 <= w < rest.len() implies s[k0 + w] == rest[w] by {
                assert(s[nl + (1 + rq.len() + w)] == rp[1 + rq.len() + w]);
                assert(rp[1 + rq.len() + w] == rest[w]);
            }
        }
        assert(!is_space(s[p])) by {
            assert(s[p] == rq[0]);
            if is_word(q) {
                assert(rq[0] == q[0]);
                assert(is_alnum(q[0]));
            } else {
                assert(rq[0] == '"');
            }
        }
        assert(skip_spaces(s, p) == p);
        assert(skip_spaces(s, nl) == p);
        assert(list_terminator(s, e)) by {
            if bg {
                assert(s[e] == t[0] && s[e + 1] == t[1] && s[e + 2] == '"');
            } else {
                assert(s[e] == '"' && e + 1 == s.len());
            }
        }
        lemma_params_render(s, p, qs, e);
    }

    // the trailer: the stray quote is left over, so the line is rejected
    let ip = parse_params(s, skip_spaces(s, nl)).1;
    if bg {
        let ib = if qs.len() > 0 {
            assert(ip == e);
            assert(s[e] == ' ' && s[e + 1] == '&' && s[e + 2] == '"');
            assert(skip_spaces(s, e + 1) == e + 1);
            assert(skip_spaces(s, e) == e + 1);
            e + 1
        } else {
            ip
        };
        assert(s[ib] == '&');
        assert(parse_input_redirect(s, ib) == Some((None::<InputModel>, ib)));
        assert(skip_spaces(s, ib) == ib);
        assert(parse_output_redirect(s, ib) == Some((None::<OutputModel>, ib)));
        assert(s[ib + 1] == '"');
        assert(skip_spaces(s, ib + 1) == ib + 1);
        assert(ib + 1 < s.len());
    } else {
        assert(ip == e || (qs.len() == 0 && ip == nl));
        assert(s[ip] == '"');
        assert(skip_spaces(s, ip) == ip);
        assert(parse_input_redirect(s, ip) == Some((None::<InputModel>, ip)));
        assert(parse_output_redirect(s, ip) == Some((None::<OutputModel>, ip)));
        assert(s[ip] != '&');
        assert(ip < s.len());
    }
}

fn space_char(c: char) -> (r: bool)
    ensures
        r == is_space(c),
{
    c == ' ' || c == '\t'
}

fn alnum_char(c: char) -> (r: bool)
    ensures
        r == is_alnum(c),
{
    ('a' <= c && c <= 'z') || ('A' <= c && c <= 'Z') || ('0' <= c && c <= '9')
}

/// Relies on `char::is_alphanumeric`: the result depends on the character
/// alone.
#[verifier::external_body]
fn unicode_alphanumeric_char(c: char) -> (r: bool)
    ensures
        r == unicode_alphanumeric(c),
{
    c.is_alphanumeric()
}

/// Relies on `char::is_whitespace`: the result depends on the character
/// alone.
#[verifier::external_body]
fn unicode_whitespace_char(c: char) -> (r: bool)
    ensures
        r == unicode_whitespace(c),
{
    c.is_whitespace()
}

fn quoted_inner_char(c: char) -> (r: bool)
    ensures
        r == is_quoted_inner(c),
{
    (unicode_alphanumeric_char(c) || unicode_whitespace_char(c)) && c != '"' && c != '\''
}

fn skip_spaces_exec(cs: &Vec<char>, i: usize) -> (r: usize)
    requires
        i <= cs@.len(),
    ensures
        r == skip_spaces(cs@, i as int),
        i <= r <= cs@.len(),
{
    let mut j = i;
    while j < cs.len() && space_char(cs[j])
        invariant
            i <= j <= cs@.len(),
            skip_spaces(cs@, i as int) == skip_spaces(cs@, j as int),
        decreases cs@.len() - j,
    {
        j = j + 1;
    }
    j
}

fn scan_token_exec(cs: &Vec<char>, i: usize) -> (r: usize)
    requires
        i <= cs@.len(),
    ensures
        r == scan_token(cs@, i as int),
        i <= r <= cs@.len(),
{
    let mut j = i;
    loop
        invariant
            i <= j <= cs@.len(),
            scan_token(cs@, i as int) == scan_token(cs@, j as int),
        decreases cs@.len() - j,
    {
        if j < cs.len() && alnum_char(cs[j]) {
            j = j + 1;
        } else if j < cs.len() && cs[j] == '\\' && j + 1 < cs.len() && cs[j + 1] == '"' {
            j = j + 2;
        } else {
            return j;
        }
    }
}

fn scan_alnum_exec(cs: &Vec<char>, i: usize) -> (r: usize)
    requires
        i <= cs@.len(),
    ensures
        r == scan_alnum(cs@, i as int),
        i <= r <= cs@.len(),
{
    let mut j = i;
    while j < cs.len() && alnum_char(cs[j])
        invariant
            i <= j <= cs@.len(),
            scan_alnum(cs@, i as int) == scan_alnum(cs@, j as int),
        decreases cs@.len() - j,
    {
        j = j + 1;
    }
    j
}

/// An input redirection: `filename` is opened for reading and installed on
/// the descriptor slot `file_descriptor` (always 0, the standard input).
#[derive(Debug, PartialEq, Clone)]
pub struct InputRedirect {
    pub filename: String,
    pub file_descriptor: u8,
}

/// An output redirection: `filename` is opened for writing (appending when
/// `append` holds, truncating otherwise) and installed on the descriptor
/// slot `file_descriptor` (1 for `>` and `>>`, 2 for `2>`).
#[derive(Debug, PartialEq, Clone)]
pub struct OutputRedirect {
    pub filename: String,
    pub append: bool,
    pub file_descriptor: u8,
}

/// One pipeline stage: the program name, its parameters in order, the
/// optional redirections, whether the containing pipeline runs in the
/// background, and whether this stage feeds a pipe into a successor.
#[derive(Debug, PartialEq, Clone)]
pub struct Command {
    pub name: String,
    pub pipe: bool,
    pub background: bool,
    pub input_file: Option<InputRedirect>,
    pub output_file: Option<OutputRedirect>,
    pub parameters: Vec<String>,
}

impl View for InputRedirect {
    type V = InputModel;

    open spec fn view(&self) -> InputModel {
        InputModel { filename: self.filename@, file_descriptor: self.file_descriptor }
    }
}

impl View for OutputRedirect {
    type V = OutputModel;

    open spec fn view(&self) -> OutputModel {
        OutputModel {
            filename: self.filename@,
            append: self.append,
            file_descriptor: self.file_descriptor,
        }
    }
}

impl View for Command {
    type V = CommandModel;

    open spec fn view(&self) -> CommandModel {
        CommandModel {
            name: self.name@,
            pipe: self.pipe,
            background: self.background,
            input_file: match self.input_file {
                Some(r) => Some(r@),
                None => None,
            },
            output_file: match self.output_file {
                Some(r) => Some(r@),
                None => None,
            },
            parameters: views_of(self.parameters@),
        }
    }
}

/// A rejected line: the position at which parsing stopped and the part of
/// the line from there on, which was not consumed.
#[derive(Debug, PartialEq, Clone)]
pub struct ParseError {
    pub position: usize,
    pub remainder: String,
}

fn scan_inner_exec(cs: &Vec<char>, i: usize) -> (r: usize)
    requires
        i <= cs@.len(),
    ensures
        r == scan_inner(cs@, i as int),
        i <= r <= cs@.len(),
{
    let mut j = i;
    while j < cs.len() && quoted_inner_char(cs[j])
        invariant
            i <= j <= cs@.len(),
            scan_inner(cs@, i as int) == scan_inner(cs@, j as int),
        decreases cs@.len() - j,
    {
        j = j + 1;
    }
    j
}

fn chars_of(line: &str) -> (cs: Vec<char>)
    ensures
        cs@ == line@,
{
    let n = line.unicode_len();
    let mut cs: Vec<char> = Vec::new();
    let mut idx: usize = 0;
    while idx < n
        invariant
            idx <= n,
            n == line@.len(),
            cs@ == line@.subrange(0, idx as int),
        decreases n - idx,
    {
        cs.push(line.get_char(idx));
        idx = idx + 1;
        proof {
            assert(cs@ =~= line@.subrange(0, idx as int));
        }
    }
    proof {
        assert(cs@ =~= line@);
    }
    cs
}

fn mk_error(line: &str, position: usize) -> (e: ParseError)
    requires
        position <= line@.len(),
    ensures
        e.position == position,
        e.remainder@ == line@.subrange(position as int, line@.len() as int),
{
    let end = line.unicode_len();
    ParseError { position, remainder: line.substring_char(position, end).to_owned() }
}

fn parse_param_exec(line: &str, cs: &Vec<char>, i: usize) -> (r: Option<(String, usize)>)
    requires
        cs@ == line@,
        i <= cs@.len(),
    ensures
        match r {
            Some(p) => parse_param(cs@, i as int) == Some((p.0@, p.1 as int)) && i < p.1 <= cs@.len(),
            None => parse_param(cs@, i as int) is None,
        },
{
    if i < cs.len() && cs[i] == '2' && i + 1 < cs.len() && cs[i + 1] == '>' {
        None
    } else if i < cs.len() && (cs[i] == '"' || cs[i] == '\'') {
        let j = scan_inner_exec(cs, i + 1);
        if i + 1 < j && j < cs.len() && cs[j] == cs[i] {
            Some((line.substring_char(i + 1, j).to_owned(), j + 1))
        } else {
            None
        }
    } else {
        let j = scan_token_exec(cs, i);
        if i < j {
            Some((line.substring_char(i, j).to_owned(), j))
        } else {
            None
        }
    }
}

fn parse_params_exec(line: &str, cs: &Vec<char>, i: usize) -> (r: (Vec<String>, usize))
    requires
        cs@ == line@,
        i <= cs@.len(),
    ensures
        ({
            let (ps, end) = parse_params(cs@, i as int);
            views_of(r.0@) == ps && r.1 as int == end && i <= r.1 <= cs@.len()
        }),
{
    let mut params: Vec<String> = Vec::new();
    let mut cur: usize = i;
    match parse_param_exec(line, cs, i) {
        None => {
            proof {
                assert(views_of(params@) =~= parse_params(cs@, i as int).0);
            }
            return (params, i);
        },
        Some((p0, k0)) => {
            proof {
                assert(views_of(seq![p0]) =~= seq![p0@]);
            }
            params.push(p0);
            cur = k0;
        },
    }
    loop
        invariant
            cs@ == line@,
            i <= cur <= cs@.len(),
            ({
                let (tail, tend) = parse_params_tail(cs@, cur as int);
                let (full, fend) = parse_params(cs@, i as int);
                views_of(params@) + tail == full && tend == fend
            }),
        decreases cs@.len() - cur,
    {
        let j = skip_spaces_exec(cs, cur);
        if j == cur {
            proof {
                assert(views_of(params@) + parse_params_tail(cs@, cur as int).0 =~= views_of(
                    params@,
                ));
            }
            return (params, cur);
        }
        match parse_param_exec(line, cs, j) {
            None => {
                proof {
                    assert(views_of(params@) + parse_params_tail(cs@, cur as int).0 =~= views_of(
                        params@,
                    ));
                }
                return (params, cur);
            },
            Some((p, k)) => {
                proof {
                    assert(views_of(params@.push(p)) =~= views_of(params@) + seq![p@]);
                    assert((views_of(params@) + seq![p@]) + parse_params_tail(cs@, k as int).0
                        =~= views_of(params@) + (seq![p@] + parse_params_tail(cs@, k as int).0));
                }
                params.push(p);
                cur = k;
            },
        }
    }
}

fn parse_output_filename_exec(line: &str, cs: &Vec<char>, i: usize, append: bool, fd: u8) -> (r:
    Result<(OutputRedirect, usize), ParseError>)
    requires
        cs@ == line@,
        i <= cs@.len(),
    ensures
        match r {
            Ok(o) => parse_output_filename(cs@, i as int, append, fd) == Some(
                (Some(o.0@), o.1 as int),
            ) && o.1 <= cs@.len(),
            Err(e) => parse_output_filename(cs@, i as int, append, fd) is None && e.position
                <= line@.len() && e.remainder@ == line@.subrange(
                e.position as int,
                line@.len() as int,
            ),
        },
{
    let j = skip_spaces_exec(cs, i);
    let k = scan_alnum_exec(cs, j);
    if j < k {
        let filename = line.substring_char(j, k).to_owned();
        Ok((OutputRedirect { filename, append, file_descriptor: fd }, k))
    } else {
        Err(mk_error(line, j))
    }
}

/// Parse one line as a single command, consuming the entire line.
///
/// On success the returned command is exactly what the grammar model
/// [`parse_command_spec`] yields for the line; the function fails precisely
/// on the lines the model rejects, and the error carries the position where
/// parsing stopped together with the unconsumed rest of the line.
pub fn parse_command(line: &str) -> (r: Result<Command, ParseError>)
    ensures
        match r {
            Ok(c) => parse_command_spec(line@) == Some(c@) && command_model_wf(c@),
            Err(e) => parse_command_spec(line@) is None && e.position <= line@.len()
                && e.remainder@ == line@.subrange(e.position as int, line@.len() as int),
        },
{
    let cs = chars_of(line);
    let i0 = skip_spaces_exec(&cs, 0);
    let nend = scan_token_exec(&cs, i0);
    if nend == i0 {
        return Err(mk_error(line, i0));
    }
    let name = line.substring_char(i0, nend).to_owned();
    let i1 = skip_spaces_exec(&cs, nend);
    let (params, ip) = parse_params_exec(line, &cs, i1);

    let mut input_file: Option<InputRedirect> = None;
    let mut pos = skip_spaces_exec(&cs, ip);
    if pos < cs.len() && cs[pos] == '<' {
        let j = skip_spaces_exec(&cs, pos + 1);
        let k = scan_alnum_exec(&cs, j);
        if j < k {
            let filename = line.substring_char(j, k).to_owned();
            input_file = Some(InputRedirect { filename, file_descriptor: 0 });
            pos = k;
        } else {
            return Err(mk_error(line, j));
        }
    }
    assert(parse_input_redirect(cs@, skip_spaces(cs@, ip as int)) == Some(
        (
            match input_file {
                Some(r) => Some(r@),
                None => None::<InputModel>,
            },
            pos as int,
        ),
    ));

    let mut output_file: Option<OutputRedirect> = None;
    let mut pos2 = skip_spaces_exec(&cs, pos);
    if pos2 < cs.len() && cs[pos2] == '2' && pos2 + 1 < cs.len() && cs[pos2 + 1] == '>' {
        match parse_output_filename_exec(line, &cs, pos2 + 2, false, 2) {
            Ok((o, k)) => {
                output_file = Some(o);
                pos2 = k;
            },
            Err(e) => {
                return Err(e);
            },
        }
    } else if pos2 < cs.len() && cs[pos2] == '>' && pos2 + 1 < cs.len() && cs[pos2 + 1] == '>' {
        match parse_output_filename_exec(line, &cs, pos2 + 2, true, 1) {
            Ok((o, k)) => {
                output_file = Some(o);
                pos2 = k;
            },
            Err(e) => {
                return Err(e);
            },
        }
    } else if pos2 < cs.len() && cs[pos2] == '>' {
        match parse_output_filename_exec(line, &cs, pos2 + 1, false, 1) {
            Ok((o, k)) => {
                output_file = Some(o);
                pos2 = k;
            },
            Err(e) => {
                return Err(e);
            },
        }
    }
    assert(parse_output_redirect(cs@, skip_spaces(cs@, pos as int)) == Some(
        (
            match output_file {
                Some(r) => Some(r@),
                None => None::<OutputModel>,
            },
            pos2 as int,
        ),
    ));

    let ib = skip_spaces_exec(&cs, pos2);
    let background = ib < cs.len() && cs[ib] == '&';
    let after = if background {
        ib + 1
    } else {
        ib
    };
    let iend = skip_spaces_exec(&cs, after);
    if iend != cs.len() {
        return Err(mk_error(line, iend));
    }
    Ok(Command { name, pipe: false, background, input_file, output_file, parameters: params })
}

/// Parse a line into a pipeline description.
///
/// The grammar in scope yields single-stage pipelines, so a successful parse
/// is a vector of exactly one command; the launcher nevertheless accepts
/// pipelines of any length.
pub fn parse(line: &str) -> (r: Result<Vec<Command>, ParseError>)
    ensures
        match r {
            Ok(p) => p@.len() == 1 && parse_command_spec(line@) == Some(p@[0]@)
                && command_model_wf(p@[0]@),
            Err(e) => parse_command_spec(line@) is None && e.position <= line@.len()
                && e.remainder@ == line@.subrange(e.position as int, line@.len() as int),
        },
{
    match parse_command(line) {
        Ok(c) => {
            let mut pipeline: Vec<Command> = Vec::new();
            pipeline.push(c);
            Ok(pipeline)
        },
        Err(e) => Err(e),
    }
}

} // verus!
