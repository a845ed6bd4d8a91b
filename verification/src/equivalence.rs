//! The two ways of executing a source agree: the byte codes of a source take
//! the machine where its tokens take it.

use crate::byte_code::{ByteCodeKind, ByteCodeView};
use crate::compile::{
    compiled, idle, lemma_compiled, lemma_run_len, lemma_runs_cover, lemma_token_at_least,
    run_covers, run_roles, runs_from, token_of, unresolved_code, Run, SourceView,
};
use crate::machine_model::{
    input_at, lemma_on_tape, lemma_run_symbols_halted, lemma_run_symbols_keeps, on_tape,
    symbol_roles, MachineModel,
};
use crate::symbol::Symbol;
use crate::utility::{
    balanced, first_unmatched_end, is_pair, last_unmatched_start, lemma_one_end,
    lemma_one_start, lemma_partner, loop_delta, loop_depth, never_negative, open_until, partner,
    LoopRole,
};
use vstd::prelude::*;

verus! {

/// The two machines hold the same tape, data pointer, output and count of
/// characters read.
pub open spec fn same_data(a: MachineModel, b: MachineModel) -> bool {
    &&& a.cells == b.cells
    &&& a.data_ptr == b.data_ptr
    &&& a.emitted == b.emitted
    &&& a.consumed == b.consumed
}

/// No read stands directly behind another read.
pub open spec fn reads_apart(symbols: Seq<Symbol>) -> bool {
    forall|t: int, u: int|
        0 <= t && u == t + 1 && u < symbols.len() ==> !(#[trigger] symbols[t] == Symbol::Read
            && #[trigger] symbols[u] == Symbol::Read)
}

/// The machine after `k` tokens that all mean `symbol`, a plain instruction.
pub open spec fn repeated(m: MachineModel, symbol: Symbol, k: int, inputs: Seq<char>) -> MachineModel {
    let len = m.cells.len() as int;
    let next = MachineModel { instr_ptr: m.instr_ptr + k, ..m };
    match symbol {
        Symbol::IncPtr => MachineModel { data_ptr: on_tape(m.data_ptr + k, len), ..next },
        Symbol::DecPtr => MachineModel { data_ptr: on_tape(m.data_ptr - k, len), ..next },
        Symbol::IncData => MachineModel {
            cells: m.cells.update(m.data_ptr, ((m.current() + k) % 256) as u8),
            ..next
        },
        Symbol::DecData => MachineModel {
            cells: m.cells.update(m.data_ptr, ((m.current() - k) % 256) as u8),
            ..next
        },
        Symbol::Write => MachineModel {
            emitted: m.emitted + Seq::new(k as nat, |i: int| m.current() as char),
            ..next
        },
        _ => m.read(input_at(inputs, m.consumed)),
    }
}

/// The tokens leave the machine where the byte codes leave it, but for the
/// instruction pointers: that of the byte codes points at a byte code, that
/// of the tokens at its first token or at a comment before it.
pub open spec fn corresponds(
    symbols: Seq<Symbol>,
    by_tokens: MachineModel,
    by_codes: MachineModel,
) -> bool {
    &&& same_data(by_tokens, by_codes)
    &&& 0 <= by_codes.instr_ptr <= runs_from(symbols, 0).len()
    &&& 0 <= by_tokens.instr_ptr <= token_of(symbols, by_codes.instr_ptr)
    &&& idle(symbols, by_tokens.instr_ptr, token_of(symbols, by_codes.instr_ptr))
}

/// Over items that are no brackets the depth stays.
proof fn lemma_flat_depth(roles: Seq<LoopRole>, a: int, b: int)
    requires
        0 <= a <= b <= roles.len(),
        forall|t: int| a <= t < b ==> roles[t] == LoopRole::Neither,
    ensures
        loop_depth(roles, b) == loop_depth(roles, a),
    decreases b - a,
{
    if a < b {
        lemma_flat_depth(roles, a, b - 1);
    }
}

/// The depth among the tokens, at the start of byte code `j` and from there
/// to the start of the next, is the depth among the byte codes.
proof fn lemma_depths(symbols: Seq<Symbol>, j: int)
    requires
        0 <= j <= runs_from(symbols, 0).len(),
    ensures
        loop_depth(symbol_roles(symbols), token_of(symbols, j)) == loop_depth(
            run_roles(symbols),
            j,
        ),
        j < runs_from(symbols, 0).len() ==> forall|t: int|
            token_of(symbols, j) < t <= token_of(symbols, j + 1) ==> #[trigger] loop_depth(
                symbol_roles(symbols),
                t,
            ) == loop_depth(run_roles(symbols), j + 1),
    decreases j,
{
    let runs = runs_from(symbols, 0);
    let tokens = symbol_roles(symbols);
    let codes = run_roles(symbols);
    lemma_runs_cover(symbols);
    if j == 0 {
        lemma_flat_depth(tokens, 0, token_of(symbols, 0));
    } else {
        lemma_depths(symbols, j - 1);
        assert(run_covers(symbols, j - 1));
    }
    if j < runs.len() {
        assert(run_covers(symbols, j));
        let at = runs[j].at;
        assert(tokens[at] == codes[j]);
        assert(loop_depth(tokens, at + 1) == loop_depth(tokens, at) + loop_delta(tokens[at]));
        assert(loop_depth(codes, j + 1) == loop_depth(codes, j) + loop_delta(codes[j]));
        assert forall|t: int| at < t <= token_of(symbols, j + 1) implies #[trigger] loop_depth(
            tokens,
            t,
        ) == loop_depth(codes, j + 1) by {
            assert forall|u: int| at + 1 <= u < t implies tokens[u] == LoopRole::Neither by {
                if u < at + runs[j].len {
                    assert(symbols[u] == symbols[at]);
                } else {
                    assert(!symbols[u].is_instruction());
                }
            }
            lemma_flat_depth(tokens, at + 1, t);
        }
    }
}

/// A later byte code starts at a later token.
proof fn lemma_token_order(symbols: Seq<Symbol>, a: int, b: int)
    requires
        0 <= a < b <= runs_from(symbols, 0).len(),
    ensures
        token_of(symbols, a) < token_of(symbols, b),
    decreases b - a,
{
    lemma_runs_cover(symbols);
    assert(run_covers(symbols, b - 1));
    if a < b - 1 {
        lemma_token_order(symbols, a, b - 1);
    }
}

/// Between the starts of two byte codes, every token lies behind the start
/// of one byte code and not behind the start of the next.
proof fn lemma_cover(symbols: Seq<Symbol>, a: int, b: int, t: int) -> (j: int)
    requires
        0 <= a < b <= runs_from(symbols, 0).len(),
        token_of(symbols, a) < t <= token_of(symbols, b),
    ensures
        a <= j < b,
        token_of(symbols, j) < t <= token_of(symbols, j + 1),
    decreases b - a,
{
    if t > token_of(symbols, b - 1) {
        b - 1
    } else {
        lemma_cover(symbols, a, b - 1, t)
    }
}

/// Two byte codes that make a loop start at tokens that make a loop.
proof fn lemma_pair_of_tokens(symbols: Seq<Symbol>, a: int, b: int)
    requires
        is_pair(run_roles(symbols), a, b),
    ensures
        is_pair(symbol_roles(symbols), token_of(symbols, a), token_of(symbols, b)),
{
    let runs = runs_from(symbols, 0);
    let tokens = symbol_roles(symbols);
    let codes = run_roles(symbols);
    lemma_runs_cover(symbols);
    assert(run_covers(symbols, a));
    assert(run_covers(symbols, b));
    lemma_depths(symbols, a);
    lemma_depths(symbols, b);
    assert(tokens[runs[a].at] == codes[a]);
    assert(tokens[runs[b].at] == codes[b]);
    assert(loop_depth(tokens, token_of(symbols, b) + 1) == loop_depth(codes, b + 1));
    lemma_token_order(symbols, a, b);
    assert forall|t: int|
        token_of(symbols, a) < t <= token_of(symbols, b) implies #[trigger] loop_depth(tokens, t)
        > loop_depth(tokens, token_of(symbols, a)) by {
        let j = lemma_cover(symbols, a, b, t);
        lemma_depths(symbols, j);
        assert(loop_depth(codes, j + 1) > loop_depth(codes, a));
    }
}

/// Where every bracket among the tokens has its partner, every jump among
/// the byte codes has its partner too.
pub proof fn lemma_balanced_codes(symbols: Seq<Symbol>)
    requires
        balanced(symbol_roles(symbols)),
    ensures
        balanced(run_roles(symbols)),
{
    let codes = run_roles(symbols);
    lemma_runs_cover(symbols);
    assert forall|j: int| 0 <= j <= codes.len() implies loop_depth(codes, j) >= 0 by {
        lemma_depths(symbols, j);
        if j < codes.len() {
            assert(run_covers(symbols, j));
        }
    }
    lemma_depths(symbols, codes.len() as int);
}

/// The partner of a jump among the byte codes starts at the partner of the
/// bracket at which the jump starts.
pub proof fn lemma_partner_of_token(symbols: Seq<Symbol>, j: int)
    requires
        balanced(symbol_roles(symbols)),
        0 <= j < runs_from(symbols, 0).len(),
        runs_from(symbols, 0)[j].kind.is_jump(),
    ensures
        0 <= partner(run_roles(symbols), j) < runs_from(symbols, 0).len(),
        partner(symbol_roles(symbols), token_of(symbols, j)) == token_of(
            symbols,
            partner(run_roles(symbols), j),
        ),
{
    let tokens = symbol_roles(symbols);
    let codes = run_roles(symbols);
    let other = partner(codes, j);
    let at = token_of(symbols, j);
    lemma_balanced_codes(symbols);
    lemma_runs_cover(symbols);
    assert(run_covers(symbols, j));
    lemma_partner(codes, j);
    lemma_partner(tokens, at);
    if codes[j] == LoopRole::Start {
        lemma_pair_of_tokens(symbols, j, other);
        lemma_one_end(tokens, at, partner(tokens, at), token_of(symbols, other));
    } else {
        lemma_pair_of_tokens(symbols, other, j);
        lemma_one_start(tokens, partner(tokens, at), token_of(symbols, other), at);
    }
}

/// Between the starts of two byte codes, every token lies at or behind the
/// start of one byte code and before the start of the next.
proof fn lemma_find_code(symbols: Seq<Symbol>, a: int, b: int, t: int) -> (j: int)
    requires
        0 <= a < b <= runs_from(symbols, 0).len(),
        token_of(symbols, a) <= t < token_of(symbols, b),
    ensures
        a <= j < b,
        token_of(symbols, j) <= t < token_of(symbols, j + 1),
    decreases b - a,
{
    if t >= token_of(symbols, b - 1) {
        b - 1
    } else {
        lemma_find_code(symbols, a, b - 1, t)
    }
}

/// Every token that is an instruction is covered by a byte code.
pub proof fn lemma_code_of_token(symbols: Seq<Symbol>, t: int) -> (j: int)
    requires
        0 <= t < symbols.len(),
        symbols[t].is_instruction(),
    ensures
        0 <= j < runs_from(symbols, 0).len(),
        run_covers(symbols, j),
        token_of(symbols, j) <= t < token_of(symbols, j) + runs_from(symbols, 0)[j].len,
{
    let runs = runs_from(symbols, 0);
    lemma_runs_cover(symbols);
    let j = lemma_find_code(symbols, 0, runs.len() as int, t);
    assert(run_covers(symbols, j));
    j
}

/// A byte code that is not the last one starts before the tokens end.
proof fn lemma_token_in_source(symbols: Seq<Symbol>, j: int)
    requires
        0 <= j < runs_from(symbols, 0).len(),
    ensures
        run_covers(symbols, j),
        0 <= token_of(symbols, j) < symbols.len(),
        token_of(symbols, j) == runs_from(symbols, 0)[j].at,
{
    lemma_runs_cover(symbols);
    assert(run_covers(symbols, j));
}

/// The depth before token `t` is the depth before byte code `j`, the first
/// one that does not start before `t`.
proof fn lemma_depth_of_token(symbols: Seq<Symbol>, t: int) -> (j: int)
    requires
        0 <= t <= symbols.len(),
    ensures
        0 <= j <= runs_from(symbols, 0).len(),
        loop_depth(symbol_roles(symbols), t) == loop_depth(run_roles(symbols), j),
        t <= token_of(symbols, j),
        j > 0 ==> token_of(symbols, j - 1) < t,
{
    let runs = runs_from(symbols, 0);
    lemma_runs_cover(symbols);
    if t <= token_of(symbols, 0) {
        assert forall|u: int| 0 <= u < t implies symbol_roles(symbols)[u] == LoopRole::Neither by {
            assert(!symbols[u].is_instruction());
        }
        lemma_flat_depth(symbol_roles(symbols), 0, t);
        0
    } else {
        let before = lemma_cover(symbols, 0, runs.len() as int, t);
        lemma_depths(symbols, before);
        before + 1
    }
}

/// No byte code starts between the start of one and the start of the next.
proof fn lemma_token_between(symbols: Seq<Symbol>, j: int, k: int)
    requires
        0 <= j < runs_from(symbols, 0).len(),
        0 <= k <= runs_from(symbols, 0).len(),
        token_of(symbols, j) < token_of(symbols, k),
    ensures
        j < k,
{
    if k < j {
        lemma_token_order(symbols, k, j);
    }
}

/// Up to the start of byte code `e`, no end among the tokens lacks a start
/// where none among the byte codes does.
proof fn lemma_never_negative_tokens(symbols: Seq<Symbol>, e: int)
    requires
        0 <= e <= runs_from(symbols, 0).len(),
        never_negative(run_roles(symbols), e),
    ensures
        never_negative(symbol_roles(symbols), token_of(symbols, e)),
{
    lemma_token_at_least(symbols, e);
    assert forall|t: int| 0 <= t <= token_of(symbols, e) implies loop_depth(
        symbol_roles(symbols),
        t,
    ) >= 0 by {
        let j = lemma_depth_of_token(symbols, t);
        if j > 0 {
            lemma_token_between(symbols, j - 1, e);
        }
    }
}

/// The two modes find the same fault in a source. Where every jump among
/// the byte codes has its partner, every bracket among the tokens has one;
/// where byte code `e` is the first end without a start, its token is the
/// first such bracket; where byte code `s` is the last start without an end,
/// its token is the last such bracket.
pub proof fn lemma_modes_fail_alike(symbols: Seq<Symbol>)
    ensures
        balanced(run_roles(symbols)) <==> balanced(symbol_roles(symbols)),
        forall|e: int| #[trigger]
            first_unmatched_end(run_roles(symbols), e) ==> first_unmatched_end(
                symbol_roles(symbols),
                token_of(symbols, e),
            ),
        forall|s: int| #[trigger]
            last_unmatched_start(run_roles(symbols), s) ==> last_unmatched_start(
                symbol_roles(symbols),
                token_of(symbols, s),
            ),
{
    let runs = runs_from(symbols, 0);
    let codes = run_roles(symbols);
    let tokens = symbol_roles(symbols);
    let n = symbols.len() as int;
    lemma_runs_cover(symbols);
    if balanced(tokens) {
        lemma_balanced_codes(symbols);
    }
    if balanced(codes) {
        lemma_never_negative_tokens(symbols, runs.len() as int);
        lemma_depths(symbols, runs.len() as int);
    }
    assert forall|e: int| #[trigger] first_unmatched_end(codes, e) implies first_unmatched_end(
        tokens,
        token_of(symbols, e),
    ) by {
        lemma_token_in_source(symbols, e);
        lemma_never_negative_tokens(symbols, e);
        lemma_depths(symbols, e);
    }
    assert forall|s: int| #[trigger] last_unmatched_start(codes, s) implies last_unmatched_start(
        tokens,
        token_of(symbols, s),
    ) by {
        let at = token_of(symbols, s);
        lemma_token_in_source(symbols, s);
        lemma_never_negative_tokens(symbols, runs.len() as int);
        lemma_depths(symbols, s);
        assert(tokens[at] == codes[s]);
        assert forall|t: int| at < t <= n implies #[trigger] loop_depth(tokens, t) > loop_depth(
            tokens,
            at,
        ) by {
            let j = lemma_cover(symbols, s, runs.len() as int, t);
            lemma_depths(symbols, j);
        }
        assert forall|later: int| at < later < n implies !open_until(tokens, later, n) by {
            if open_until(tokens, later, n) {
                let k = lemma_code_of_token(symbols, later);
                assert(symbols[later] == symbols[runs[k].at]);
                assert(runs[k].kind.is_jump());
                assert(token_of(symbols, k) == later);
                lemma_token_between(symbols, s, k);
                lemma_depths(symbols, k);
                assert(codes[k] == tokens[later]);
                assert forall|j: int| k < j <= runs.len() implies #[trigger] loop_depth(codes, j)
                    > loop_depth(codes, k) by {
                    lemma_depths(symbols, j);
                    lemma_token_order(symbols, k, j);
                    lemma_token_at_least(symbols, j);
                    assert(loop_depth(tokens, token_of(symbols, j)) > loop_depth(tokens, later));
                }
                assert(open_until(codes, k, runs.len() as int));
            }
        }
    }
}

/// Running `a` tokens and then `b` more is running `a + b` tokens.
pub proof fn lemma_run_symbols_add(
    m: MachineModel,
    symbols: Seq<Symbol>,
    inputs: Seq<char>,
    a: nat,
    b: nat,
)
    ensures
        m.run_symbols(symbols, inputs, a + b) == m.run_symbols(symbols, inputs, a).run_symbols(
            symbols,
            inputs,
            b,
        ),
    decreases b,
{
    if b > 0 {
        lemma_run_symbols_add(m, symbols, inputs, a, (b - 1) as nat);
    }
}

/// Tokens that are no instructions move the instruction pointer and nothing
/// else.
proof fn lemma_skip_idle(m: MachineModel, symbols: Seq<Symbol>, inputs: Seq<char>, to: int)
    requires
        0 <= m.instr_ptr <= to <= symbols.len(),
        idle(symbols, m.instr_ptr, to),
    ensures
        m.run_symbols(symbols, inputs, (to - m.instr_ptr) as nat) == (MachineModel {
            instr_ptr: to,
            ..m
        }),
    decreases to - m.instr_ptr,
{
    reveal(MachineModel::step_symbols);
    if m.instr_ptr < to {
        lemma_skip_idle(m, symbols, inputs, to - 1);
        assert(!symbols[to - 1].is_instruction());
    }
}

/// Adding `a` and then one, each modulo 256, is adding `a + 1`; and so
/// for subtracting.
proof fn lemma_byte_once_more(value: u8, a: int)
    ensures
        ((((value + a) % 256) as u8) + 1) % 256 == (value + a + 1) % 256,
        ((((value - a) % 256) as u8) - 1) % 256 == (value - a - 1) % 256,
{
}

/// One more `>` or `<`, behind `k - 1` of them.
proof fn lemma_one_more_move(
    m: MachineModel,
    symbols: Seq<Symbol>,
    inputs: Seq<char>,
    symbol: Symbol,
    k: int,
)
    requires
        m.wf(),
        1 <= k,
        symbol == Symbol::IncPtr || symbol == Symbol::DecPtr,
        0 <= m.instr_ptr + k - 1 < symbols.len(),
        symbols[m.instr_ptr + k - 1] == symbol,
    ensures
        repeated(m, symbol, k - 1, inputs).step_symbols(symbols, inputs) == repeated(
            m,
            symbol,
            k,
            inputs,
        ),
{
    reveal(MachineModel::step_symbols);
    let len = m.cells.len() as int;
    lemma_on_tape(m.data_ptr + k - 1, len);
    lemma_on_tape(m.data_ptr - (k - 1), len);
}

/// One more `+` or `-`, behind `k - 1` of them.
proof fn lemma_one_more_change(
    m: MachineModel,
    symbols: Seq<Symbol>,
    inputs: Seq<char>,
    symbol: Symbol,
    k: int,
)
    requires
        m.wf(),
        1 <= k,
        symbol == Symbol::IncData || symbol == Symbol::DecData,
        0 <= m.instr_ptr + k - 1 < symbols.len(),
        symbols[m.instr_ptr + k - 1] == symbol,
    ensures
        repeated(m, symbol, k - 1, inputs).step_symbols(symbols, inputs) == repeated(
            m,
            symbol,
            k,
            inputs,
        ),
{
    reveal(MachineModel::step_symbols);
    let before = repeated(m, symbol, k - 1, inputs);
    let after = before.execute_symbol(symbols, inputs);
    let goal = repeated(m, symbol, k, inputs);
    lemma_byte_once_more(m.current(), k - 1);
    assert(before.current() == before.cells[m.data_ptr]);
    assert(after.cells =~= goal.cells);
}

/// One more `.`, behind `k - 1` of them.
proof fn lemma_one_more_write(
    m: MachineModel,
    symbols: Seq<Symbol>,
    inputs: Seq<char>,
    k: int,
)
    requires
        m.wf(),
        1 <= k,
        0 <= m.instr_ptr + k - 1 < symbols.len(),
        symbols[m.instr_ptr + k - 1] == Symbol::Write,
    ensures
        repeated(m, Symbol::Write, k - 1, inputs).step_symbols(symbols, inputs) == repeated(
            m,
            Symbol::Write,
            k,
            inputs,
        ),
{
    reveal(MachineModel::step_symbols);
    let before = repeated(m, Symbol::Write, k - 1, inputs);
    let after = before.execute_symbol(symbols, inputs);
    let goal = repeated(m, Symbol::Write, k, inputs);
    assert(after.emitted =~= goal.emitted);
}

/// One more token that means `symbol`, behind `k - 1` of them.
proof fn lemma_one_more(
    m: MachineModel,
    symbols: Seq<Symbol>,
    inputs: Seq<char>,
    symbol: Symbol,
    k: int,
)
    requires
        m.wf(),
        1 <= k,
        symbol.is_plain(),
        symbol != Symbol::Read,
        0 <= m.instr_ptr + k - 1 < symbols.len(),
        symbols[m.instr_ptr + k - 1] == symbol,
    ensures
        repeated(m, symbol, k - 1, inputs).step_symbols(symbols, inputs) == repeated(
            m,
            symbol,
            k,
            inputs,
        ),
{
    if symbol == Symbol::IncPtr || symbol == Symbol::DecPtr {
        lemma_one_more_move(m, symbols, inputs, symbol, k);
    } else if symbol == Symbol::IncData || symbol == Symbol::DecData {
        lemma_one_more_change(m, symbols, inputs, symbol, k);
    } else {
        lemma_one_more_write(m, symbols, inputs, k);
    }
}

/// Equal plain instructions add up: `k` of them do at once what each does
/// in turn. A read is taken alone.
proof fn lemma_run_of_equals(
    m: MachineModel,
    symbols: Seq<Symbol>,
    inputs: Seq<char>,
    symbol: Symbol,
    k: int,
)
    requires
        m.wf(),
        0 <= k,
        m.instr_ptr + k <= symbols.len(),
        symbol.is_plain(),
        symbol == Symbol::Read ==> k == 1,
        forall|t: int| m.instr_ptr <= t < m.instr_ptr + k ==> #[trigger] symbols[t] == symbol,
    ensures
        m.run_symbols(symbols, inputs, k as nat) == repeated(m, symbol, k, inputs),
    decreases k,
{
    reveal(MachineModel::step_symbols);
    let len = m.cells.len() as int;
    if symbol == Symbol::Read {
        assert(m.run_symbols(symbols, inputs, 0) == m);
        assert(symbols[m.instr_ptr] == symbol);
    } else if k == 0 {
        lemma_on_tape(m.data_ptr, len);
        assert(m.cells.update(m.data_ptr, m.current()) =~= m.cells);
        assert(m.emitted + Seq::new(0, |i: int| m.current() as char) =~= m.emitted);
    } else {
        lemma_run_of_equals(m, symbols, inputs, symbol, k - 1);
        assert(symbols[m.instr_ptr + k - 1] == symbol);
        lemma_one_more(m, symbols, inputs, symbol, k);
    }
}

/// What byte code `j` of a source holds.
proof fn lemma_compiled_at(src: SourceView, j: int)
    requires
        src.tokens.len() <= usize::MAX,
        balanced(symbol_roles(src.symbols())),
        0 <= j < runs_from(src.symbols(), 0).len(),
    ensures
        compiled(src).len() == runs_from(src.symbols(), 0).len(),
        compiled(src).len() <= usize::MAX,
        compiled(src)[j].kind == runs_from(src.symbols(), 0)[j].kind,
        compiled(src)[j].kind.is_jump() ==> compiled(src)[j].arg == Some(
            partner(run_roles(src.symbols()), j) as usize,
        ) && 0 <= partner(run_roles(src.symbols()), j) < compiled(src).len(),
        !compiled(src)[j].kind.is_jump() ==> compiled(src)[j].arg == Some(
            runs_from(src.symbols(), 0)[j].len as usize,
        ) && 1 <= runs_from(src.symbols(), 0)[j].len <= usize::MAX,
{
    lemma_balanced_codes(src.symbols());
    lemma_compiled(src);
    assert(compiled(src)[j].kind == runs_from(src.symbols(), 0)[j].kind);
}

/// A byte code for `k` plain instructions does what `k` tokens do in turn.
proof fn lemma_plain_code(m: MachineModel, symbol: Symbol, k: int, inputs: Seq<char>, code: ByteCodeView)
    requires
        symbol.is_plain(),
        symbol == Symbol::Read ==> k == 1,
        0 <= k <= usize::MAX,
        Some(code.kind) == ByteCodeKind::of_symbol(symbol),
        code.arg == Some(k as usize),
    ensures
        same_data(repeated(m, symbol, k, inputs), m.execute(code, inputs)),
        repeated(m, symbol, k, inputs).instr_ptr == m.instr_ptr + k,
        m.execute(code, inputs).instr_ptr == m.instr_ptr + 1,
{
}

/// A plain byte code does what its tokens do.
proof fn lemma_one_plain_code(
    src: SourceView,
    inputs: Seq<char>,
    by_tokens: MachineModel,
    by_codes: MachineModel,
) -> (steps: nat)
    requires
        src.tokens.len() <= usize::MAX,
        balanced(symbol_roles(src.symbols())),
        reads_apart(src.symbols()),
        by_tokens.wf(),
        corresponds(src.symbols(), by_tokens, by_codes),
        by_codes.instr_ptr < runs_from(src.symbols(), 0).len(),
        !runs_from(src.symbols(), 0)[by_codes.instr_ptr].kind.is_jump(),
    ensures
        1 <= steps,
        corresponds(
            src.symbols(),
            by_tokens.run_symbols(src.symbols(), inputs, steps),
            by_codes.execute(compiled(src)[by_codes.instr_ptr], inputs),
        ),
{
    let symbols = src.symbols();
    let j = by_codes.instr_ptr;
    let run = runs_from(symbols, 0)[j];
    let code = compiled(src)[j];
    let symbol = symbols[run.at];
    lemma_token_in_source(symbols, j);
    lemma_compiled_at(src, j);
    let gap = (run.at - by_tokens.instr_ptr) as nat;
    lemma_skip_idle(by_tokens, symbols, inputs, run.at);
    let at_run = MachineModel { instr_ptr: run.at, ..by_tokens };
    if symbol == Symbol::Read && run.len > 1 {
        assert(symbols[run.at + 1] == symbols[run.at]);
    }
    lemma_run_of_equals(at_run, symbols, inputs, symbol, run.len);
    lemma_run_symbols_add(by_tokens, symbols, inputs, gap, run.len as nat);
    lemma_plain_code(at_run, symbol, run.len, inputs, code);
    lemma_plain_code(by_codes, symbol, run.len, inputs, code);
    assert(same_data(at_run.execute(code, inputs), by_codes.execute(code, inputs)));
    gap + run.len as nat
}

/// A jump does what its bracket does.
proof fn lemma_one_jump_code(
    src: SourceView,
    inputs: Seq<char>,
    by_tokens: MachineModel,
    by_codes: MachineModel,
) -> (steps: nat)
    requires
        src.tokens.len() <= usize::MAX,
        balanced(symbol_roles(src.symbols())),
        by_tokens.wf(),
        corresponds(src.symbols(), by_tokens, by_codes),
        by_codes.instr_ptr < runs_from(src.symbols(), 0).len(),
        runs_from(src.symbols(), 0)[by_codes.instr_ptr].kind.is_jump(),
    ensures
        1 <= steps,
        corresponds(
            src.symbols(),
            by_tokens.run_symbols(src.symbols(), inputs, steps),
            by_codes.execute(compiled(src)[by_codes.instr_ptr], inputs),
        ),
{
    reveal(MachineModel::step_symbols);
    let symbols = src.symbols();
    let j = by_codes.instr_ptr;
    let run = runs_from(symbols, 0)[j];
    let code = compiled(src)[j];
    lemma_token_in_source(symbols, j);
    lemma_compiled_at(src, j);
    lemma_partner_of_token(symbols, j);
    let other = partner(run_roles(symbols), j);
    lemma_balanced_codes(symbols);
    lemma_partner(run_roles(symbols), j);
    assert(runs_from(symbols, 0)[other].kind.is_jump());
    lemma_token_in_source(symbols, other);
    lemma_compiled_at(src, other);
    let gap = (run.at - by_tokens.instr_ptr) as nat;
    lemma_skip_idle(by_tokens, symbols, inputs, run.at);
    let at_run = MachineModel { instr_ptr: run.at, ..by_tokens };
    assert(at_run.run_symbols(symbols, inputs, 1) == at_run.run_symbols(
        symbols,
        inputs,
        0,
    ).step_symbols(symbols, inputs));
    lemma_run_symbols_add(by_tokens, symbols, inputs, gap, 1);
    let after_tokens = at_run.execute_symbol(symbols, inputs);
    let after_code = by_codes.execute(code, inputs);
    assert(after_tokens == at_run.run_symbols(symbols, inputs, 1));
    assert(at_run.current() == by_codes.current());
    assert(code.arg == Some(other as usize));
    assert(partner(symbol_roles(symbols), run.at) == token_of(symbols, other));
    if run.kind == ByteCodeKind::LoopStartJumpIfDataZero {
        assert(symbols[run.at] == Symbol::LoopStart);
        assert(after_tokens == at_run.loop_start(token_of(symbols, other)));
        assert(after_code == by_codes.loop_start(other));
    } else {
        assert(symbols[run.at] == Symbol::LoopEnd);
        assert(after_tokens == at_run.loop_end(token_of(symbols, other)));
        assert(after_code == by_codes.loop_end(other));
    }
    gap + 1
}

/// The machine that the byte codes of a source reach in `steps` steps is
/// reached, but for the instruction pointer, by the tokens in `by_tokens`
/// steps.
proof fn lemma_codes_follow_tokens(src: SourceView, cell_size: int, inputs: Seq<char>, steps: nat) -> (by_tokens:
    nat)
    requires
        0 < cell_size,
        src.tokens.len() <= usize::MAX,
        balanced(symbol_roles(src.symbols())),
        reads_apart(src.symbols()),
    ensures
        corresponds(
            src.symbols(),
            MachineModel::fresh(cell_size).run_symbols(src.symbols(), inputs, by_tokens),
            MachineModel::fresh(cell_size).run_codes(compiled(src), inputs, steps),
        ),
        compiled(src).len() == runs_from(src.symbols(), 0).len(),
        !MachineModel::fresh(cell_size).run_codes(compiled(src), inputs, steps).halted(
            compiled(src).len() as int,
        ) ==> steps <= by_tokens && !MachineModel::fresh(cell_size).run_symbols(
            src.symbols(),
            inputs,
            by_tokens,
        ).halted(src.tokens.len() as int),
    decreases steps,
{
    reveal(MachineModel::step_codes);
    let symbols = src.symbols();
    let codes = compiled(src);
    let start = MachineModel::fresh(cell_size);
    lemma_balanced_codes(symbols);
    lemma_compiled(src);
    let by_tokens = if steps == 0 {
        lemma_runs_cover(symbols);
        0
    } else {
        let before = lemma_codes_follow_tokens(src, cell_size, inputs, (steps - 1) as nat);
        let by_codes = start.run_codes(codes, inputs, (steps - 1) as nat);
        let reached = start.run_symbols(symbols, inputs, before);
        if by_codes.instr_ptr < codes.len() {
            lemma_run_symbols_keeps(start, symbols, inputs, before);
            let more = if runs_from(symbols, 0)[by_codes.instr_ptr].kind.is_jump() {
                lemma_one_jump_code(src, inputs, reached, by_codes)
            } else {
                lemma_one_plain_code(src, inputs, reached, by_codes)
            };
            lemma_run_symbols_add(start, symbols, inputs, before, more);
            before + more
        } else {
            before
        }
    };
    let last = start.run_codes(codes, inputs, steps);
    if last.instr_ptr < codes.len() {
        lemma_token_in_source(symbols, last.instr_ptr);
    }
    by_tokens
}

/// Both modes of execution agree, seen from the byte codes: whatever the
/// byte codes of a source have done after `steps` of them, its tokens have
/// done after `by_tokens` of them: the same tape, data pointer, output and
/// number of characters read; and where no byte code is left, no token is
/// left. This holds of a source whose brackets all have partners and in
/// which no read stands directly behind another; a run of reads is one read
/// as a byte code, and as many reads as tokens.
pub proof fn lemma_modes_agree(src: SourceView, cell_size: int, inputs: Seq<char>, steps: nat) -> (by_tokens:
    nat)
    requires
        0 < cell_size,
        src.tokens.len() <= usize::MAX,
        balanced(symbol_roles(src.symbols())),
        reads_apart(src.symbols()),
    ensures
        same_data(
            MachineModel::fresh(cell_size).run_symbols(src.symbols(), inputs, by_tokens),
            MachineModel::fresh(cell_size).run_codes(compiled(src), inputs, steps),
        ),
        MachineModel::fresh(cell_size).run_codes(compiled(src), inputs, steps).halted(
            compiled(src).len() as int,
        ) ==> MachineModel::fresh(cell_size).run_symbols(src.symbols(), inputs, by_tokens).halted(
            src.tokens.len() as int,
        ),
{
    let symbols = src.symbols();
    let start = MachineModel::fresh(cell_size);
    let reached = lemma_codes_follow_tokens(src, cell_size, inputs, steps);
    let by_codes = start.run_codes(compiled(src), inputs, steps);
    if by_codes.halted(compiled(src).len() as int) {
        let last = start.run_symbols(symbols, inputs, reached);
        let rest = (symbols.len() - last.instr_ptr) as nat;
        lemma_skip_idle(last, symbols, inputs, symbols.len() as int);
        lemma_run_symbols_add(start, symbols, inputs, reached, rest);
        reached + rest
    } else {
        reached
    }
}

/// Both modes of execution agree, seen from the tokens: where the tokens of
/// a source are used up after `steps` of them, its byte codes are used up
/// after as many, and have left the same tape, data pointer, output and
/// number of characters read.
pub proof fn lemma_modes_agree_at_end(src: SourceView, cell_size: int, inputs: Seq<char>, steps: nat)
    requires
        0 < cell_size,
        src.tokens.len() <= usize::MAX,
        balanced(symbol_roles(src.symbols())),
        reads_apart(src.symbols()),
        MachineModel::fresh(cell_size).run_symbols(src.symbols(), inputs, steps).halted(
            src.tokens.len() as int,
        ),
    ensures
        MachineModel::fresh(cell_size).run_codes(compiled(src), inputs, steps).halted(
            compiled(src).len() as int,
        ),
        same_data(
            MachineModel::fresh(cell_size).run_symbols(src.symbols(), inputs, steps),
            MachineModel::fresh(cell_size).run_codes(compiled(src), inputs, steps),
        ),
{
    let symbols = src.symbols();
    let start = MachineModel::fresh(cell_size);
    let by_codes = start.run_codes(compiled(src), inputs, steps);
    let reached = lemma_codes_follow_tokens(src, cell_size, inputs, steps);
    if !by_codes.halted(compiled(src).len() as int) {
        lemma_run_symbols_halted(start, symbols, inputs, steps, (reached - steps) as nat);
    }
    let end = lemma_modes_agree(src, cell_size, inputs, steps);
    if end >= steps {
        lemma_run_symbols_halted(start, symbols, inputs, steps, (end - steps) as nat);
    } else {
        lemma_run_symbols_halted(start, symbols, inputs, end, (steps - end) as nat);
    }
}

/// Coalescing, first half: a longest run of `k` equal plain instructions
/// that starts at token `i` is one byte code, the only one that starts
/// there, with the operand `k`.
pub proof fn lemma_run_is_one_code(src: SourceView, i: int, k: int) -> (j: int)
    requires
        0 <= i,
        1 <= k,
        i + k <= src.tokens.len(),
        src.symbols()[i].is_plain(),
        forall|t: int| i <= t < i + k ==> #[trigger] src.symbols()[t] == src.symbols()[i],
        i == 0 || src.symbols()[i - 1] != src.symbols()[i],
        i + k == src.tokens.len() || src.symbols()[i + k] != src.symbols()[i],
    ensures
        0 <= j < compiled(src).len(),
        Some(compiled(src)[j].kind) == ByteCodeKind::of_symbol(src.symbols()[i]),
        compiled(src)[j] == unresolved_code(src, Run { kind: compiled(src)[j].kind, at: i, len: k }),
        forall|other: int|
            0 <= other < compiled(src).len() && token_of(src.symbols(), other) == i ==> other == j,
{
    let symbols = src.symbols();
    let runs = runs_from(symbols, 0);
    let j = lemma_code_of_token(symbols, i);
    if runs[j].at < i {
        assert(symbols[i - 1] == symbols[runs[j].at]);
        assert(symbols[i] == symbols[runs[j].at]);
    }
    lemma_run_len(symbols, i, k);
    assert forall|other: int|
        0 <= other < compiled(src).len() && token_of(symbols, other) == i implies other == j by {
        if other < j {
            lemma_token_order(symbols, other, j);
        } else if j < other {
            lemma_token_order(symbols, j, other);
        }
    }
    j
}

/// Coalescing, second half: `k` equal plain instructions, executed as
/// tokens one after the other, leave the same tape, data pointer, output
/// and number of characters read as the one byte code with the operand `k`.
/// For reads this holds of one read only: as tokens `k` reads take `k`
/// characters, as a byte code they take one.
pub proof fn lemma_coalescing(
    m: MachineModel,
    symbols: Seq<Symbol>,
    inputs: Seq<char>,
    k: int,
    code: ByteCodeView,
)
    requires
        m.wf(),
        1 <= k <= usize::MAX,
        m.instr_ptr + k <= symbols.len(),
        symbols[m.instr_ptr].is_plain(),
        symbols[m.instr_ptr] == Symbol::Read ==> k == 1,
        forall|t: int|
            m.instr_ptr <= t < m.instr_ptr + k ==> #[trigger] symbols[t] == symbols[m.instr_ptr],
        Some(code.kind) == ByteCodeKind::of_symbol(symbols[m.instr_ptr]),
        code.arg == Some(k as usize),
    ensures
        same_data(m.run_symbols(symbols, inputs, k as nat), m.execute(code, inputs)),
{
    let symbol = symbols[m.instr_ptr];
    lemma_run_of_equals(m, symbols, inputs, symbol, k);
    lemma_plain_code(m, symbol, k, inputs, code);
}

} // verus!
