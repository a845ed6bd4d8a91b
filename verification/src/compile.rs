//! What compiling a source yields: one byte code for each run of equal plain
//! instructions and one for each loop bracket, the jumps resolved.

use crate::byte_code::{code_roles, ByteCodeKind, ByteCodeView, SourcePosition, SourceRange};
use crate::machine_model::runnable;
use crate::source_file::RawContentIndex;
use crate::symbol::{symbol_of, Symbol};
use crate::text::{byte_len, is_segmentation};
use crate::utility::{balanced, lemma_partner, partner, LoopRole};
use vstd::prelude::*;

verus! {

/// What a source holds.
pub ghost struct SourceView {
    /// The label of the source.
    pub filename: Seq<char>,
    /// The raw text.
    pub raw_content: Seq<char>,
    /// The tokens: the byte offset and the text of each.
    pub tokens: Seq<(usize, Seq<char>)>,
}

impl SourceView {
    /// The meaning of each token.
    pub open spec fn symbols(self) -> Seq<Symbol> {
        self.tokens.map_values(|t: (usize, Seq<char>)| symbol_of(t.1))
    }

    /// The tokens cut the raw text into pieces.
    pub open spec fn wf(self) -> bool {
        is_segmentation(self.raw_content, self.tokens)
    }
}

/// How many tokens directly behind token `i` mean the same as token `i`.
pub open spec fn more_of_same(symbols: Seq<Symbol>, i: int) -> nat
    decreases symbols.len() - i,
{
    if 0 <= i && i + 1 < symbols.len() && symbols[i + 1] == symbols[i] {
        1 + more_of_same(symbols, i + 1)
    } else {
        0
    }
}

/// The length of the longest run of equal tokens that starts at token `i`.
pub open spec fn run_len(symbols: Seq<Symbol>, i: int) -> int {
    1 + more_of_same(symbols, i) as int
}

/// An instruction as the scan finds it: its kind, the token at which it
/// starts, and the number of tokens that it covers.
pub ghost struct Run {
    pub kind: ByteCodeKind,
    pub at: int,
    pub len: int,
}

/// The instructions from token `i` on: a bracket is one instruction, a
/// longest run of equal plain instructions is one, anything else is none.
pub open spec fn runs_from(symbols: Seq<Symbol>, i: int) -> Seq<Run>
    decreases
            if i < symbols.len() {
                symbols.len() - i
            } else {
                0
            },
{
    if i < 0 || i >= symbols.len() {
        Seq::empty()
    } else {
        match ByteCodeKind::of_symbol(symbols[i]) {
            None => runs_from(symbols, i + 1),
            Some(kind) => if kind.is_jump() {
                seq![Run { kind, at: i, len: 1 }] + runs_from(symbols, i + 1)
            } else {
                seq![Run { kind, at: i, len: run_len(symbols, i) }] + runs_from(
                    symbols,
                    i + 1 + more_of_same(symbols, i),
                )
            },
        }
    }
}

/// The number of line breaks among the first `i` tokens.
pub open spec fn row_at(symbols: Seq<Symbol>, i: int) -> int
    decreases i,
{
    if i <= 0 {
        0
    } else if symbols[i - 1] == Symbol::Newline {
        row_at(symbols, i - 1) + 1
    } else {
        row_at(symbols, i - 1)
    }
}

/// The number of tokens between the last line break before token `i` and
/// token `i`.
pub open spec fn column_at(symbols: Seq<Symbol>, i: int) -> int
    decreases i,
{
    if i <= 0 {
        0
    } else if symbols[i - 1] == Symbol::Newline {
        0
    } else {
        column_at(symbols, i - 1) + 1
    }
}

/// Where token `i` stands.
pub open spec fn position_at(src: SourceView, i: int) -> SourcePosition {
    SourcePosition {
        row: row_at(src.symbols(), i) as usize,
        column: column_at(src.symbols(), i) as usize,
        idx_in_raw: RawContentIndex(src.tokens[i].0),
    }
}

/// The byte code for `run`, a jump not yet resolved.
pub open spec fn unresolved_code(src: SourceView, run: Run) -> ByteCodeView {
    ByteCodeView {
        kind: run.kind,
        arg: if run.kind.is_jump() {
            None
        } else {
            Some(run.len as usize)
        },
        range_in_raw: SourceRange {
            start: position_at(src, run.at),
            end: position_at(src, run.at).advanced(run.len),
        },
    }
}

/// The byte codes for the tokens from `i` on, jumps not yet resolved.
pub open spec fn emitted_from(src: SourceView, i: int) -> Seq<ByteCodeView> {
    runs_from(src.symbols(), i).map_values(|run: Run| unresolved_code(src, run))
}

/// `codes` with each jump given the index of its partner.
pub open spec fn resolved(codes: Seq<ByteCodeView>) -> Seq<ByteCodeView> {
    Seq::new(
        codes.len(),
        |j: int|
            if codes[j].kind.is_jump() {
                ByteCodeView { arg: Some(partner(code_roles(codes), j) as usize), ..codes[j] }
            } else {
                codes[j]
            },
    )
}

/// The byte codes of a source.
pub open spec fn compiled(src: SourceView) -> Seq<ByteCodeView> {
    resolved(emitted_from(src, 0))
}

/// The token at which byte code `j` starts; the number of tokens where there
/// is no such byte code.
pub open spec fn token_of(symbols: Seq<Symbol>, j: int) -> int {
    let runs = runs_from(symbols, 0);
    if 0 <= j < runs.len() {
        runs[j].at
    } else {
        symbols.len() as int
    }
}

/// No token from `from` up to `to` is an instruction.
pub open spec fn idle(symbols: Seq<Symbol>, from: int, to: int) -> bool {
    forall|t: int| from <= t < to ==> !(#[trigger] symbols[t]).is_instruction()
}

/// The roles of the byte codes of `symbols` in loop matching.
pub open spec fn run_roles(symbols: Seq<Symbol>) -> Seq<LoopRole> {
    runs_from(symbols, 0).map_values(|run: Run| run.kind.loop_role())
}

/// Byte code `j` stands for the tokens that it covers: they are equal
/// instructions of its kind, as many as the run is long, one for a jump; and
/// between them and the next byte code there is no instruction.
pub open spec fn run_covers(symbols: Seq<Symbol>, j: int) -> bool {
    let run = runs_from(symbols, 0)[j];
    &&& 0 <= run.at
    &&& 1 <= run.len
    &&& run.at + run.len <= token_of(symbols, j + 1) <= symbols.len()
    &&& ByteCodeKind::of_symbol(symbols[run.at]) == Some(run.kind)
    &&& forall|t: int| run.at <= t < run.at + run.len ==> #[trigger] symbols[t] == symbols[run.at]
    &&& run.kind.is_jump() ==> run.len == 1
    &&& !run.kind.is_jump() ==> run.len == run_len(symbols, run.at)
    &&& idle(symbols, run.at + run.len, token_of(symbols, j + 1))
}

/// The run that starts at token `i` is as long as the tokens that mean the
/// same reach.
pub proof fn lemma_run_len(symbols: Seq<Symbol>, i: int, k: int)
    requires
        0 <= i,
        1 <= k,
        i + k <= symbols.len(),
        forall|t: int| i <= t < i + k ==> symbols[t] == symbols[i],
        i + k == symbols.len() || symbols[i + k] != symbols[i],
    ensures
        run_len(symbols, i) == k,
    decreases k,
{
    if k > 1 {
        lemma_run_len(symbols, i + 1, k - 1);
    }
}

/// A run holds equal tokens and ends where another token or the end comes.
pub proof fn lemma_run_holds(symbols: Seq<Symbol>, i: int)
    requires
        0 <= i < symbols.len(),
    ensures
        i + run_len(symbols, i) <= symbols.len(),
        forall|t: int| i <= t < i + run_len(symbols, i) ==> symbols[t] == symbols[i],
        i + run_len(symbols, i) == symbols.len() || symbols[i + run_len(symbols, i)] != symbols[i],
    decreases symbols.len() - i,
{
    if i + 1 < symbols.len() && symbols[i + 1] == symbols[i] {
        lemma_run_holds(symbols, i + 1);
    }
}

/// Row and column are bounded by the number of tokens before.
pub proof fn lemma_position_bounds(symbols: Seq<Symbol>, i: int)
    requires
        0 <= i,
    ensures
        0 <= row_at(symbols, i) <= i,
        0 <= column_at(symbols, i) <= i,
    decreases i,
{
    if i > 0 {
        lemma_position_bounds(symbols, i - 1);
    }
}

/// Over tokens that are no line breaks the row stays and the column counts.
pub proof fn lemma_position_over_run(symbols: Seq<Symbol>, i: int, k: int)
    requires
        0 <= i,
        0 <= k,
        forall|t: int| i <= t < i + k ==> symbols[t] != Symbol::Newline,
    ensures
        row_at(symbols, i + k) == row_at(symbols, i),
        column_at(symbols, i + k) == column_at(symbols, i) + k,
    decreases k,
{
    if k > 0 {
        lemma_position_over_run(symbols, i, k - 1);
    }
}

/// A token that means an instruction is one byte long.
pub proof fn lemma_instruction_is_one_byte(text: Seq<char>)
    requires
        symbol_of(text).is_instruction(),
    ensures
        byte_len(text) == 1,
{
    assert(vstd::utf8::is_ascii_chars(text));
    vstd::utf8::is_ascii_chars_encode_utf8(text);
}

/// The bytes of `k` instruction tokens from token `i` on lie within the text.
pub proof fn lemma_run_bytes(src: SourceView, i: int, k: int)
    requires
        src.wf(),
        0 <= i,
        0 <= k,
        i + k <= src.tokens.len(),
        forall|t: int| i <= t < i + k ==> (#[trigger] src.symbols()[t]).is_instruction(),
    ensures
        i < src.tokens.len() ==> src.tokens[i].0 + k <= byte_len(src.raw_content),
        i + k < src.tokens.len() ==> src.tokens[i].0 + k == src.tokens[i + k].0,
    decreases k,
{
    if k > 0 {
        lemma_run_bytes(src, i, k - 1);
        let last = i + k - 1;
        assert(src.symbols()[last].is_instruction());
        lemma_instruction_is_one_byte(src.tokens[last].1);
        lemma_offset_bound(src, last);
        if last + 1 < src.tokens.len() {
            assert(src.tokens[last + 1].0 == src.tokens[last].0 + byte_len(src.tokens[last].1));
        } else {
            assert(src.tokens[last] == src.tokens.last());
        }
    } else if i < src.tokens.len() {
        lemma_offset_bound(src, i);
    }
}

/// Every token starts within the text.
pub proof fn lemma_offset_bound(src: SourceView, i: int)
    requires
        src.wf(),
        0 <= i < src.tokens.len(),
    ensures
        src.tokens[i].0 + byte_len(src.tokens[i].1) <= byte_len(src.raw_content),
    decreases src.tokens.len() - i,
{
    if i + 1 < src.tokens.len() {
        lemma_offset_bound(src, i + 1);
        assert(src.tokens[i + 1].0 == src.tokens[i].0 + byte_len(src.tokens[i].1));
    } else {
        assert(src.tokens[i] == src.tokens.last());
    }
}

/// What the scan emits at token `i`, and where it goes on.
pub proof fn lemma_emitted_step(src: SourceView, i: int)
    requires
        0 <= i < src.tokens.len(),
    ensures
        match ByteCodeKind::of_symbol(src.symbols()[i]) {
            None => emitted_from(src, i) == emitted_from(src, i + 1),
            Some(kind) => {
                let len = if kind.is_jump() {
                    1
                } else {
                    run_len(src.symbols(), i)
                };
                emitted_from(src, i) == seq![unresolved_code(src, Run { kind, at: i, len })]
                    + emitted_from(src, i + len)
            },
        },
{
    let symbols = src.symbols();
    match ByteCodeKind::of_symbol(symbols[i]) {
        None => {},
        Some(kind) => {
            let len = if kind.is_jump() {
                1
            } else {
                run_len(symbols, i)
            };
            let run = Run { kind, at: i, len };
            assert(runs_from(symbols, i) == seq![run] + runs_from(symbols, i + len));
            assert(emitted_from(src, i) =~= seq![unresolved_code(src, run)] + emitted_from(
                src,
                i + len,
            ));
        },
    }
}

/// From token `p` on, where the byte codes from `j` on start.
proof fn lemma_scan(symbols: Seq<Symbol>, p: int, j: int)
    requires
        0 <= p <= symbols.len(),
        0 <= j <= runs_from(symbols, 0).len(),
        runs_from(symbols, p) == runs_from(symbols, 0).skip(j),
    ensures
        p <= token_of(symbols, j) <= symbols.len(),
        idle(symbols, p, token_of(symbols, j)),
        forall|k: int| j <= k < runs_from(symbols, 0).len() ==> run_covers(symbols, k),
    decreases symbols.len() - p,
{
    let all = runs_from(symbols, 0);
    if p == symbols.len() {
        assert(all.skip(j).len() == 0);
    } else {
        match ByteCodeKind::of_symbol(symbols[p]) {
            None => {
                lemma_scan(symbols, p + 1, j);
            },
            Some(kind) => {
                let len = if kind.is_jump() {
                    1
                } else {
                    run_len(symbols, p)
                };
                let run = Run { kind, at: p, len };
                let rest = runs_from(symbols, p + len);
                lemma_run_holds(symbols, p);
                assert(runs_from(symbols, p) == seq![run] + rest);
                assert(all.skip(j).len() > 0);
                assert(all.skip(j)[0] == run);
                assert(all[j] == run);
                assert(rest =~= all.skip(j).skip(1));
                assert(all.skip(j).skip(1) =~= all.skip(j + 1));
                lemma_scan(symbols, p + len, j + 1);
                assert(run_covers(symbols, j));
            },
        }
    }
}

/// Every byte code stands for the tokens that it covers, and before the
/// first one there is no instruction.
pub proof fn lemma_runs_cover(symbols: Seq<Symbol>)
    ensures
        0 <= token_of(symbols, 0) <= symbols.len(),
        idle(symbols, 0, token_of(symbols, 0)),
        forall|j: int| 0 <= j < runs_from(symbols, 0).len() ==> run_covers(symbols, j),
{
    assert(runs_from(symbols, 0) =~= runs_from(symbols, 0).skip(0));
    lemma_scan(symbols, 0, 0);
}

/// Byte code `j` starts at token `j` or behind it: there are no more byte
/// codes than tokens.
pub proof fn lemma_token_at_least(symbols: Seq<Symbol>, j: int)
    requires
        0 <= j <= runs_from(symbols, 0).len(),
    ensures
        j <= token_of(symbols, j) <= symbols.len(),
    decreases j,
{
    lemma_runs_cover(symbols);
    if j > 0 {
        lemma_token_at_least(symbols, j - 1);
        assert(run_covers(symbols, j - 1));
    }
}

/// What the byte codes of a source hold: for each run one byte code of its
/// kind, with the length of the run or, for a jump, the index of its partner.
pub proof fn lemma_compiled(src: SourceView)
    requires
        src.tokens.len() <= usize::MAX,
        balanced(run_roles(src.symbols())),
    ensures
        code_roles(emitted_from(src, 0)) == run_roles(src.symbols()),
        compiled(src).len() == runs_from(src.symbols(), 0).len(),
        compiled(src).len() <= src.tokens.len(),
        runnable(compiled(src)),
        forall|j: int|
            0 <= j < compiled(src).len() ==> {
                let run = runs_from(src.symbols(), 0)[j];
                let code = #[trigger] compiled(src)[j];
                &&& code.kind == run.kind
                &&& run.kind.is_jump() ==> code.arg == Some(
                    partner(run_roles(src.symbols()), j) as usize,
                ) && 0 <= partner(run_roles(src.symbols()), j) < compiled(src).len()
                &&& !run.kind.is_jump() ==> code.arg == Some(run.len as usize) && 1 <= run.len
                    <= usize::MAX
            },
{
    let symbols = src.symbols();
    let runs = runs_from(symbols, 0);
    let roles = run_roles(symbols);
    assert(code_roles(emitted_from(src, 0)) =~= roles);
    lemma_runs_cover(symbols);
    lemma_token_at_least(symbols, runs.len() as int);
    assert forall|j: int| 0 <= j < compiled(src).len() implies {
        let run = runs[j];
        let code = #[trigger] compiled(src)[j];
        &&& code.kind == run.kind
        &&& run.kind.is_jump() ==> code.arg == Some(partner(roles, j) as usize) && 0 <= partner(
            roles,
            j,
        ) < compiled(src).len()
        &&& !run.kind.is_jump() ==> code.arg == Some(run.len as usize) && 1 <= run.len
            <= usize::MAX
    } by {
        assert(run_covers(symbols, j));
        if runs[j].kind.is_jump() {
            lemma_partner(roles, j);
        }
    }
}

} // verus!
