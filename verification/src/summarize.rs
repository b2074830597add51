//! The summarizer capability: given free text, an optional instruction
//! string and a token budget, produce a summary, a tokens-used count and a
//! backend name. Four backends exist; the heuristic extractive one is pure
//! text work and lives here whole, while the HTTP- and CLI-backed ones keep
//! their configuration and every text-shaping rule here and leave only the
//! transport to the caller.

use vstd::prelude::*;
use crate::errors::SummarizeError;

verus! {

/// The budget ceiling every backend applies to the caller's token budget.
pub const TOKEN_CEILING: usize = 1000;

/// A successful summarization.
pub struct SummarizeResult {
    pub summary: String,
    pub tokens_used: usize,
    pub backend: String,
}

/// The one operation a summarizer backend offers.
pub trait Summarizer {
    fn summarize(&self, context: &str, instructions: Option<&str>, max_tokens: usize) -> Result<
        SummarizeResult,
        SummarizeError,
    >;
}

/// A sentence terminator of the extractive heuristic.
pub open spec fn is_term(c: char) -> bool {
    c == '.' || c == '!' || c == '?'
}

/// ASCII whitespace; the extractive heuristic trims these characters.
pub open spec fn is_space_char(c: char) -> bool {
    c == ' ' || c == '\t' || c == '\n' || c == '\r' || c == '\u{0b}' || c == '\u{0c}'
}

/// Index of the first sentence terminator, or -1 when none is present.
pub open spec fn first_term(s: Seq<char>) -> int
    decreases s.len(),
{
    if s.len() == 0 {
        -1
    } else if is_term(s[0]) {
        0
    } else {
        let r = first_term(s.drop_first());
        if r < 0 {
            -1
        } else {
            r + 1
        }
    }
}

proof fn lemma_first_term_at(s: Seq<char>, k: int)
    requires
        0 <= k < s.len(),
        is_term(s[k]),
        forall|j: int| 0 <= j < k ==> !is_term(s[j]),
    ensures
        first_term(s) == k,
    decreases k,
{
    if k > 0 {
        lemma_first_term_at(s.drop_first(), k - 1);
    }
}

proof fn lemma_first_term_none(s: Seq<char>)
    requires
        forall|j: int| 0 <= j < s.len() ==> !is_term(s[j]),
    ensures
        first_term(s) == -1,
    decreases s.len(),
{
    if s.len() > 0 {
        lemma_first_term_none(s.drop_first());
    }
}

proof fn lemma_first_term_bounds(s: Seq<char>)
    ensures
        -1 <= first_term(s) < s.len(),
    decreases s.len(),
{
    if s.len() > 0 && !is_term(s[0]) {
        lemma_first_term_bounds(s.drop_first());
    }
}

/// The pieces between sentence terminators, terminators dropped; a
/// trailing empty piece after a final terminator is not produced.
pub open spec fn split_sentences(s: Seq<char>) -> Seq<Seq<char>>
    decreases s.len(),
    via split_sentences_dec
{
    if s.len() == 0 {
        Seq::empty()
    } else {
        let k = first_term(s);
        if k < 0 {
            seq![s]
        } else {
            seq![s.take(k)] + split_sentences(s.skip(k + 1))
        }
    }
}

#[via_fn]
proof fn split_sentences_dec(s: Seq<char>) {
    lemma_first_term_bounds(s);
}

/// Leading ASCII whitespace removed.
pub open spec fn trim_start_chars(s: Seq<char>) -> Seq<char>
    decreases s.len(),
{
    if s.len() > 0 && is_space_char(s.first()) {
        trim_start_chars(s.drop_first())
    } else {
        s
    }
}

/// Trailing ASCII whitespace removed.
pub open spec fn trim_end_chars(s: Seq<char>) -> Seq<char>
    decreases s.len(),
{
    if s.len() > 0 && is_space_char(s.last()) {
        trim_end_chars(s.drop_last())
    } else {
        s
    }
}

/// ASCII whitespace removed from both ends.
pub open spec fn trim_chars(s: Seq<char>) -> Seq<char> {
    trim_end_chars(trim_start_chars(s))
}

proof fn lemma_trim_start_chars_is(s: Seq<char>, a: int)
    requires
        0 <= a <= s.len(),
        forall|j: int| 0 <= j < a ==> is_space_char(s[j]),
        a < s.len() ==> !is_space_char(s[a]),
    ensures
        trim_start_chars(s) == s.skip(a),
    decreases s.len(),
{
    if a == 0 {
        assert(s.skip(0) =~= s);
    } else {
        assert(is_space_char(s.first()));
        lemma_trim_start_chars_is(s.drop_first(), a - 1);
        assert(s.drop_first().skip(a - 1) =~= s.skip(a));
    }
}

proof fn lemma_trim_end_chars_is(s: Seq<char>, b: int)
    requires
        0 <= b <= s.len(),
        forall|j: int| b <= j < s.len() ==> is_space_char(s[j]),
        b > 0 ==> !is_space_char(s[b - 1]),
    ensures
        trim_end_chars(s) == s.take(b),
    decreases s.len(),
{
    if b == s.len() {
        if s.len() > 0 && is_space_char(s.last()) {
            assert(is_space_char(s[b - 1]));
        }
        assert(s.take(b) =~= s);
    } else {
        assert(is_space_char(s.last()));
        lemma_trim_end_chars_is(s.drop_last(), b);
        assert(s.drop_last().take(b) =~= s.take(b));
    }
}

/// The extractive selection: walk the sentences in order; skip any that
/// trim to nothing; stop at the first whose trimmed length plus one would
/// push the running count past the character budget; join the kept ones
/// with ". ".
pub open spec fn select_sentences(
    pieces: Seq<Seq<char>>,
    max_chars: nat,
    acc: Seq<char>,
    used: nat,
) -> Seq<char>
    decreases pieces.len(),
{
    if pieces.len() == 0 {
        acc
    } else {
        let t = trim_chars(pieces.first());
        if t.len() == 0 {
            select_sentences(pieces.drop_first(), max_chars, acc, used)
        } else if used + t.len() + 1 > max_chars {
            acc
        } else {
            let acc2 = if acc.len() == 0 {
                t
            } else {
                acc + seq!['.', ' '] + t
            };
            select_sentences(pieces.drop_first(), max_chars, acc2, used + t.len() + 1)
        }
    }
}

/// What the extractive heuristic produces for a context and a (already
/// clamped) token budget: selected sentences, or — when nothing was
/// selected — the first characters of the context up to the budget.
pub open spec fn extractive_summary(context: Seq<char>, capped_tokens: nat) -> Seq<char> {
    let max_chars = capped_tokens * 4;
    let sel = select_sentences(split_sentences(context), max_chars, Seq::empty(), 0);
    if sel.len() == 0 {
        if context.len() <= max_chars {
            context
        } else {
            context.take(max_chars as int)
        }
    } else {
        sel
    }
}

/// The dependency-free fallback backend: picks leading sentences within a
/// rough character budget of four characters per token.
#[derive(Default)]
pub struct ExtractiveSummarizer;

/// The extractive heuristic itself, one verified pass over the text.
pub fn extractive_summarize(context: &str, max_tokens: usize) -> (r: SummarizeResult)
    ensures
        r.tokens_used == (if max_tokens < TOKEN_CEILING {
            max_tokens as int
        } else {
            TOKEN_CEILING as int
        }),
        r.summary@ == extractive_summary(context@, r.tokens_used as nat),
        r.backend@ == "textrank"@,
{
    let capped = if max_tokens < TOKEN_CEILING {
        max_tokens
    } else {
        TOKEN_CEILING
    };
    let max_chars = capped * 4;
    let n = context.unicode_len();
    let mut out = String::new();
    let mut used: usize = 0;
    let mut pos: usize = 0;
    let ghost whole = context@;
    let ghost max_chars_g = max_chars as nat;
    proof {
        assert(whole.skip(0) =~= whole);
    }
    let mut done = false;
    while !done
        invariant
            capped <= TOKEN_CEILING,
            max_chars == capped * 4,
            max_chars_g == max_chars as nat,
            n == whole.len(),
            whole == context@,
            pos <= n,
            used <= max_chars,
            !done ==> select_sentences(split_sentences(whole), max_chars_g, Seq::empty(), 0)
                == select_sentences(
                split_sentences(whole.skip(pos as int)),
                max_chars_g,
                out@,
                used as nat,
            ),
            done ==> select_sentences(split_sentences(whole), max_chars_g, Seq::empty(), 0)
                == out@,
        decreases (if done {
            0int
        } else {
            1int
        }) + n - pos,
    {
        let ghost rest = whole.skip(pos as int);
        if pos == n {
            proof {
                assert(rest =~= Seq::<char>::empty());
                assert(split_sentences(rest) =~= Seq::<Seq<char>>::empty());
            }
            done = true;
        } else {
            // Find the end of the current sentence piece.
            let mut k = pos;
            let mut term_found = false;
            while k < n && !term_found
                invariant
                    pos <= k <= n,
                    n == whole.len(),
                    whole == context@,
                    term_found ==> k < n && is_term(whole[k as int]),
                    forall|j: int| pos <= j < k ==> !is_term(whole[j]),
                decreases n - k + (if term_found {
                    0int
                } else {
                    1int
                }),
            {
                let c = context.get_char(k);
                if c == '.' || c == '!' || c == '?' {
                    term_found = true;
                } else {
                    k = k + 1;
                }
            }
            let ghost piece = whole.subrange(pos as int, k as int);
            proof {
                if term_found {
                    assert forall|x: int| 0 <= x < k - pos implies !is_term(rest[x]) by {
                        assert(rest[x] == whole[pos + x]);
                    }
                    assert(rest[k - pos] == whole[k as int]);
                    lemma_first_term_at(rest, k - pos);
                    assert(rest.take(k - pos) =~= piece);
                } else {
                    assert forall|x: int| 0 <= x < rest.len() implies !is_term(rest[x]) by {
                        assert(rest[x] == whole[pos + x]);
                    }
                    lemma_first_term_none(rest);
                    assert(rest =~= piece);
                }
            }
            // Trim the piece.
            let mut ts = pos;
            while ts < k && is_space_exec(context.get_char(ts))
                invariant
                    pos <= ts <= k <= n,
                    n == whole.len(),
                    whole == context@,
                    forall|j: int| pos <= j < ts ==> is_space_char(whole[j]),
                decreases k - ts,
            {
                ts = ts + 1;
            }
            let mut te = k;
            while te > ts && is_space_exec(context.get_char(te - 1))
                invariant
                    ts <= te <= k <= n,
                    n == whole.len(),
                    whole == context@,
                    forall|j: int| te <= j < k ==> is_space_char(whole[j]),
                decreases te,
            {
                te = te - 1;
            }
            let ghost trimmed = whole.subrange(ts as int, te as int);
            proof {
                assert forall|j: int| 0 <= j < ts - pos implies is_space_char(piece[j]) by {
                    assert(piece[j] == whole[pos + j]);
                }
                if ts < k {
                    assert(piece[ts - pos] == whole[ts as int]);
                }
                lemma_trim_start_chars_is(piece, ts - pos);
                let mid = piece.skip(ts - pos);
                assert(mid =~= whole.subrange(ts as int, k as int));
                assert forall|j: int| te - ts <= j < mid.len() implies is_space_char(mid[j]) by {
                    assert(mid[j] == whole[ts + j]);
                }
                if te > ts {
                    assert(mid[te - ts - 1] == whole[te - 1]);
                }
                lemma_trim_end_chars_is(mid, te - ts);
                assert(mid.take(te - ts) =~= trimmed);
                assert(trim_chars(piece) == trimmed);
            }
            let ghost next_pos: int = if term_found {
                k + 1
            } else {
                n as int
            };
            let ghost pieces = split_sentences(rest);
            proof {
                // The current piece heads the remaining sentence list.
                if term_found {
                    assert(rest.skip(k - pos + 1) =~= whole.skip(next_pos));
                    assert(pieces == seq![piece] + split_sentences(whole.skip(next_pos)));
                } else {
                    assert(whole.skip(next_pos) =~= Seq::<char>::empty());
                    assert(split_sentences(whole.skip(next_pos)) =~= Seq::<Seq<char>>::empty());
                    assert(seq![piece] + split_sentences(whole.skip(next_pos)) =~= seq![piece]);
                    assert(pieces == seq![piece] + split_sentences(whole.skip(next_pos)));
                }
                assert((seq![piece] + split_sentences(whole.skip(next_pos)))[0] == piece);
                assert(pieces.first() == piece);
                assert(pieces.drop_first() =~= split_sentences(whole.skip(next_pos)));
            }
            let ghost out0 = out@;
            let ghost used0 = used as nat;
            let tlen = te - ts;
            if tlen == 0 {
                // Nothing once trimmed: skip the piece.
                proof {
                    assert(select_sentences(pieces, max_chars_g, out0, used0)
                        == select_sentences(pieces.drop_first(), max_chars_g, out0, used0));
                }
            } else if tlen >= max_chars - used {
                proof {
                    assert(used + tlen + 1 > max_chars);
                    assert(select_sentences(pieces, max_chars_g, out0, used0) == out0);
                }
                done = true;
            } else {
                if !out.as_str().is_empty() {
                    out.append(". ");
                    proof {
                        reveal_strlit(". ");
                        assert(". "@ =~= seq!['.', ' ']);
                    }
                }
                let piece_str = context.substring_char(ts, te);
                out.append(piece_str);
                used = used + tlen + 1;
                proof {
                    if out0.len() == 0 {
                        assert(out@ =~= trimmed);
                    } else {
                        assert(out@ =~= out0 + seq!['.', ' '] + trimmed);
                    }
                    assert(select_sentences(pieces, max_chars_g, out0, used0)
                        == select_sentences(pieces.drop_first(), max_chars_g, out@, used as nat));
                }
            }
            if !done {
                pos = if term_found {
                    k + 1
                } else {
                    n
                };
            }
        }
    }
    // Fall back to plain character truncation when no sentence was kept.
    let summary = if out.as_str().is_empty() {
        if n <= max_chars {
            context.to_owned()
        } else {
            let head = context.substring_char(0, max_chars);
            head.to_owned()
        }
    } else {
        out
    };
    SummarizeResult {
        summary,
        tokens_used: capped,
        backend: String::from_str("textrank"),
    }
}

fn is_space_exec(c: char) -> (r: bool)
    ensures
        r == is_space_char(c),
{
    c == ' ' || c == '\t' || c == '\n' || c == '\r' || c == '\u{0b}' || c == '\u{0c}'
}

impl Summarizer for ExtractiveSummarizer {
    fn summarize(&self, context: &str, _instructions: Option<&str>, max_tokens: usize) -> Result<
        SummarizeResult,
        SummarizeError,
    > {
        Ok(extractive_summarize(context, max_tokens))
    }
}

/// The HTTP-backed backend's configuration; the transport itself (client,
/// request, retries' sleeps) is the caller's.
pub struct OllamaSummarizer {
    pub host: String,
    pub model: String,
}

impl OllamaSummarizer {
    pub fn new(host: String, model: String) -> (s: Self)
        ensures
            s.host == host,
            s.model == model,
    {
        OllamaSummarizer { host, model }
    }
}

/// The agent-CLI-backed backend's configuration; which binary to run is
/// resolved by the caller from its environment.
pub struct CursorAgentSummarizer {
    pub model: String,
}

impl CursorAgentSummarizer {
    pub fn new(model: String) -> (s: Self)
        ensures
            s.model == model,
        {
        CursorAgentSummarizer { model }
    }

    /// The model the CLI is asked for: the configured one, or "auto" when
    /// none is configured.
    pub fn effective_model(&self) -> (r: String)
        ensures
            r@ == (if self.model@.len() == 0 {
                "auto"@
            } else {
                self.model@
            }),
    {
        if self.model.as_str().is_empty() {
            String::from_str("auto")
        } else {
            self.model.clone()
        }
    }
}

/// The local-CLI-backed backend's configuration; which binary to run is
/// resolved by the caller from its environment.
pub struct LlamaCppSummarizer {
    pub model_path: String,
}

impl LlamaCppSummarizer {
    pub fn new(model_path: String) -> (s: Self)
        ensures
            s.model_path == model_path,
    {
        LlamaCppSummarizer { model_path }
    }
}

/// The configured summarizer backend.
pub enum SummarizerBackend {
    Ollama(OllamaSummarizer),
    LlamaCpp(LlamaCppSummarizer),
    CursorAgent(CursorAgentSummarizer),
    Extractive(ExtractiveSummarizer),
}

/// Select the summarizer backend by its configured name; any unrecognized
/// name falls back to the dependency-free extractive one.
pub fn build_summarizer(backend: String, model: String, ollama_host: String) -> (r:
    SummarizerBackend)
    ensures
        backend@ == "ollama"@ ==> (r matches SummarizerBackend::Ollama(o) && o.host == ollama_host
            && o.model == model),
        backend@ == "llama_cpp"@ ==> (r matches SummarizerBackend::LlamaCpp(l) && l.model_path
            == model),
        backend@ == "cursor_agent"@ ==> (r matches SummarizerBackend::CursorAgent(c) && c.model
            == model),
        backend@ != "ollama"@ && backend@ != "llama_cpp"@ && backend@ != "cursor_agent"@ ==> (
        r matches SummarizerBackend::Extractive(_)),
{
    proof {
        reveal_strlit("ollama");
        reveal_strlit("llama_cpp");
        reveal_strlit("cursor_agent");
        assert("ollama"@.len() == 6);
        assert("llama_cpp"@.len() == 9);
        assert("cursor_agent"@.len() == 12);
    }
    if crate::model::str_eq(backend.as_str(), "ollama") {
        SummarizerBackend::Ollama(OllamaSummarizer::new(ollama_host, model))
    } else if crate::model::str_eq(backend.as_str(), "llama_cpp") {
        SummarizerBackend::LlamaCpp(LlamaCppSummarizer::new(model))
    } else if crate::model::str_eq(backend.as_str(), "cursor_agent") {
        SummarizerBackend::CursorAgent(CursorAgentSummarizer::new(model))
    } else {
        SummarizerBackend::Extractive(ExtractiveSummarizer)
    }
}

/// The character a decimal digit renders as.
pub open spec fn digit_char(d: nat) -> char {
    if d == 0 {
        '0'
    } else if d == 1 {
        '1'
    } else if d == 2 {
        '2'
    } else if d == 3 {
        '3'
    } else if d == 4 {
        '4'
    } else if d == 5 {
        '5'
    } else if d == 6 {
        '6'
    } else if d == 7 {
        '7'
    } else if d == 8 {
        '8'
    } else {
        '9'
    }
}

/// The decimal rendering of a number as characters, most significant digit
/// first.
pub open spec fn dec_chars(n: nat) -> Seq<char>
    decreases n,
{
    if n < 10 {
        seq![digit_char(n)]
    } else {
        dec_chars(n / 10) + seq![digit_char(n % 10)]
    }
}

fn append_digit(out: &mut String, d: usize)
    requires
        d < 10,
    ensures
        final(out)@ == old(out)@ + seq![digit_char(d as nat)],
{
    proof {
        reveal_strlit("0");
        reveal_strlit("1");
        reveal_strlit("2");
        reveal_strlit("3");
        reveal_strlit("4");
        reveal_strlit("5");
        reveal_strlit("6");
        reveal_strlit("7");
        reveal_strlit("8");
        reveal_strlit("9");
    }
    if d == 0 {
        out.append("0");
        proof {
            assert("0"@ =~= seq![digit_char(d as nat)]);
        }
    } else if d == 1 {
        out.append("1");
        proof {
            assert("1"@ =~= seq![digit_char(d as nat)]);
        }
    } else if d == 2 {
        out.append("2");
        proof {
            assert("2"@ =~= seq![digit_char(d as nat)]);
        }
    } else if d == 3 {
        out.append("3");
        proof {
            assert("3"@ =~= seq![digit_char(d as nat)]);
        }
    } else if d == 4 {
        out.append("4");
        proof {
            assert("4"@ =~= seq![digit_char(d as nat)]);
        }
    } else if d == 5 {
        out.append("5");
        proof {
            assert("5"@ =~= seq![digit_char(d as nat)]);
        }
    } else if d == 6 {
        out.append("6");
        proof {
            assert("6"@ =~= seq![digit_char(d as nat)]);
        }
    } else if d == 7 {
        out.append("7");
        proof {
            assert("7"@ =~= seq![digit_char(d as nat)]);
        }
    } else if d == 8 {
        out.append("8");
        proof {
            assert("8"@ =~= seq![digit_char(d as nat)]);
        }
    } else {
        out.append("9");
        proof {
            assert("9"@ =~= seq![digit_char(d as nat)]);
        }
    }
}

/// Append the decimal rendering of `n`.
fn append_dec(out: &mut String, n: usize)
    ensures
        final(out)@ == old(out)@ + dec_chars(n as nat),
    decreases n,
{
    if n >= 10 {
        append_dec(out, n / 10);
    }
    append_digit(out, n % 10);
    proof {
        if n < 10 {
            assert(old(out)@ + seq![digit_char(n as nat)] =~= old(out)@ + dec_chars(n as nat));
        } else {
            assert(old(out)@ + dec_chars((n / 10) as nat) + seq![digit_char((n % 10) as nat)]
                =~= old(out)@ + dec_chars(n as nat));
        }
    }
}

/// The fixed instruction text used when the caller supplies none.
pub open spec fn default_instructions() -> Seq<char> {
    "summarize overall progress"@
}

/// The prompt every model-backed backend sends: a fixed system preamble
/// naming the (already clamped) token budget, then the instructions and the
/// context.
pub open spec fn prompt_spec(instr: Seq<char>, capped_tokens: nat, context: Seq<char>) -> Seq<
    char,
> {
    "[System]\nYou are a concise, factual summarizer. Produce a brief progress report focusing on goals, actions taken, results, blockers, next steps. Avoid speculation. Limit to "@
        + dec_chars(capped_tokens) + " tokens.\n\n[User]\nInstructions: "@ + instr
        + "\nContext:\n"@ + context
}

/// Build the model prompt; the token budget is clamped to the ceiling
/// before it is rendered.
pub fn build_prompt(instructions: Option<&str>, max_tokens: usize, context: &str) -> (r: String)
    ensures
        r@ == prompt_spec(
            match instructions {
                Some(s) => s@,
                None => default_instructions(),
            },
            (if max_tokens < TOKEN_CEILING {
                max_tokens as nat
            } else {
                TOKEN_CEILING as nat
            }),
            context@,
        ),
{
    let capped = if max_tokens < TOKEN_CEILING {
        max_tokens
    } else {
        TOKEN_CEILING
    };
    let mut r = String::from_str(
        "[System]\nYou are a concise, factual summarizer. Produce a brief progress report focusing on goals, actions taken, results, blockers, next steps. Avoid speculation. Limit to ",
    );
    append_dec(&mut r, capped);
    r.append(" tokens.\n\n[User]\nInstructions: ");
    match instructions {
        Some(s) => r.append(s),
        None => r.append("summarize overall progress"),
    }
    r.append("\nContext:\n");
    r.append(context);
    r
}

/// Whether the text trims to nothing.
fn is_blank(s: &str) -> (r: bool)
    ensures
        r == (forall|j: int| 0 <= j < s@.len() ==> is_space_char(s@[j])),
{
    let n = s.unicode_len();
    let mut i: usize = 0;
    while i < n
        invariant
            i <= n,
            n == s@.len(),
            forall|j: int| 0 <= j < i ==> is_space_char(s@[j]),
        decreases n - i,
    {
        if !is_space_exec(s.get_char(i)) {
            return false;
        }
        i = i + 1;
    }
    true
}

/// What a CLI-backed backend returns once its process's output is in hand:
/// output that trims to nothing means the backend is unavailable; anything
/// else is capped to four characters per token and reported with the
/// clamped budget under the given backend name.
pub fn finish_cli_summary(output: String, max_tokens: usize, backend_name: &str) -> (r: Result<
    SummarizeResult,
    SummarizeError,
>)
    ensures
        match r {
            Ok(res) => {
                &&& !(forall|j: int| 0 <= j < output@.len() ==> is_space_char(output@[j]))
                &&& res.tokens_used == (if max_tokens < TOKEN_CEILING {
                    max_tokens as int
                } else {
                    TOKEN_CEILING as int
                })
                &&& res.summary@ == (if output@.len() <= res.tokens_used * 4 {
                    output@
                } else {
                    output@.take(res.tokens_used * 4)
                })
                &&& res.backend@ == backend_name@
            },
            Err(e) => {
                &&& e matches SummarizeError::Unavailable
                &&& forall|j: int| 0 <= j < output@.len() ==> is_space_char(output@[j])
            },
        },
{
    if is_blank(output.as_str()) {
        return Err(SummarizeError::Unavailable);
    }
    let capped = if max_tokens < TOKEN_CEILING {
        max_tokens
    } else {
        TOKEN_CEILING
    };
    let max_chars = capped * 4;
    let n = output.as_str().unicode_len();
    let summary = if n <= max_chars {
        output
    } else {
        let head = output.as_str().substring_char(0, max_chars);
        head.to_owned()
    };
    Ok(SummarizeResult {
        summary,
        tokens_used: capped,
        backend: String::from_str(backend_name),
    })
}

/// A host with trailing slashes removed.
pub open spec fn strip_slashes(s: Seq<char>) -> Seq<char>
    decreases s.len(),
{
    if s.len() > 0 && s.last() == '/' {
        strip_slashes(s.drop_last())
    } else {
        s
    }
}

proof fn lemma_strip_slashes_is(s: Seq<char>, e: int)
    requires
        0 <= e <= s.len(),
        forall|j: int| e <= j < s.len() ==> s[j] == '/',
        e > 0 ==> s[e - 1] != '/',
    ensures
        strip_slashes(s) == s.take(e),
    decreases s.len(),
{
    if e == s.len() {
        if s.len() > 0 && s.last() == '/' {
            assert(s[e - 1] == '/');
        }
        assert(s.take(e) =~= s);
    } else {
        assert(s.last() == '/');
        lemma_strip_slashes_is(s.drop_last(), e);
        assert(s.drop_last().take(e) =~= s.take(e));
    }
}

/// The host with trailing slashes removed, then the given absolute path:
/// how every URL under the HTTP backend's host is formed.
pub fn host_url(host: &str, path: &str) -> (r: String)
    ensures
        r@ == strip_slashes(host@) + path@,
{
    let n = host.unicode_len();
    let mut e = n;
    while e > 0 && host.get_char(e - 1) == '/'
        invariant
            e <= n,
            n == host@.len(),
            forall|j: int| e <= j < n ==> host@[j] == '/',
        decreases e,
    {
        e = e - 1;
    }
    proof {
        lemma_strip_slashes_is(host@, e as int);
    }
    let head = host.substring_char(0, e);
    let mut r = head.to_owned();
    proof {
        assert(host@.take(e as int) =~= host@.subrange(0, e as int));
    }
    r.append(path);
    r
}

/// How long the HTTP backend sleeps before retry `attempt + 1`: a linear
/// backoff of 100 ms per attempt already made.
pub fn backoff_millis(attempt: u32) -> (r: u64)
    ensures
        r == 100 * (attempt + 1),
{
    (attempt as u64 + 1) * 100
}

/// How many times the HTTP backend tries before giving up.
pub const OLLAMA_ATTEMPTS: u32 = 3;

} // verus!
