//! A source: its raw text and the tokens that the text is made of.

use crate::byte_code::{code_roles, views_of, ByteCode, ByteCodeKind, SourcePosition};
use crate::compile::{
    column_at, compiled, emitted_from, lemma_compiled, lemma_emitted_step,
    lemma_position_bounds, lemma_position_over_run, lemma_run_bytes, lemma_run_holds,
    lemma_run_len, position_at, resolved, row_at, run_len, run_roles, SourceView,
};
use crate::machine_model::runnable;
use crate::symbol::{classify, symbol_of, Symbol};
use crate::text::{
    grapheme_clusters, grapheme_indices, is_segmentation, smol_str_as_str, smol_str_new,
    smol_str_text, texts_of,
};
use crate::utility::{
    balanced, first_unmatched_end, is_table_of, last_unmatched_start, lemma_table_gives_partner,
    populate_loop_boundaries, roles_of, ExtraParen, LoopCode, LoopRole,
};
use smol_str::SmolStr;
use vstd::prelude::*;
use vstd::string::StringExecFns;

verus! {

/// A byte offset into the raw text of a source.
#[derive(Debug, Clone, Copy, PartialEq, Eq, Structural, PartialOrd, Ord, Hash)]
pub struct RawContentIndex(pub usize);

impl RawContentIndex {
    pub fn new(n: usize) -> (idx: Self)
        ensures
            idx == RawContentIndex(n),
    {
        Self(n)
    }

    /// The offset `n` bytes further.
    pub fn inc_from(self, n: usize) -> (idx: Self)
        requires
            self.0 + n <= usize::MAX,
        ensures
            idx == RawContentIndex((self.0 + n) as usize),
    {
        Self(self.0 + n)
    }

    pub fn get(&self) -> (n: usize)
        ensures
            n == self.0,
    {
        self.0
    }
}

/// An index into the tokens of a source, or into a sequence of byte codes.
#[derive(Debug, Clone, Copy, PartialEq, Eq, Structural, PartialOrd, Ord, Hash)]
pub struct UcContentIndex(pub usize);

impl UcContentIndex {
    pub fn new(n: usize) -> (idx: Self)
        ensures
            idx == UcContentIndex(n),
    {
        Self(n)
    }

    /// The index `n` places further.
    pub fn inc_from(self, n: usize) -> (idx: Self)
        requires
            self.0 + n <= usize::MAX,
        ensures
            idx == UcContentIndex((self.0 + n) as usize),
    {
        Self(self.0 + n)
    }

    pub fn get(&self) -> (n: usize)
        ensures
            n == self.0,
    {
        self.0
    }
}

/// One grapheme cluster of a source, with the byte offset at which it starts.
#[derive(Debug, PartialEq, Eq, PartialOrd, Ord, Hash)]
pub struct UcToken {
    idx_in_raw: RawContentIndex,
    uc: SmolStr,
}

impl Clone for UcToken {
    fn clone(&self) -> (token: Self)
        ensures
            token@ == self@,
    {
        Self { idx_in_raw: self.idx_in_raw, uc: self.uc.clone() }
    }
}

impl View for UcToken {
    type V = (usize, Seq<char>);

    closed spec fn view(&self) -> (usize, Seq<char>) {
        (self.idx_in_raw.0, smol_str_text(self.uc))
    }
}

impl UcToken {
    /// What the token means.
    pub open spec fn symbol(&self) -> Symbol {
        symbol_of(self@.1)
    }

    /// The token for the cluster `uc` that starts at byte `idx_in_raw`.
    pub fn new(idx_in_raw: RawContentIndex, uc: &str) -> (token: Self)
        ensures
            token@ == (idx_in_raw.0, uc@),
    {
        Self { idx_in_raw, uc: smol_str_new(uc) }
    }

    /// The byte offset at which the cluster starts.
    pub fn idx_in_raw(&self) -> (idx: RawContentIndex)
        ensures
            idx.0 == self@.0,
    {
        self.idx_in_raw
    }

    /// The cluster.
    pub fn uc(&self) -> (uc: &str)
        ensures
            uc@ == self@.1,
    {
        smol_str_as_str(&self.uc)
    }

    /// What the token means.
    pub fn classify(&self) -> (symbol: Symbol)
        ensures
            symbol == self.symbol(),
    {
        classify(smol_str_as_str(&self.uc))
    }
}

impl LoopCode for UcToken {
    open spec fn loop_role(&self) -> LoopRole {
        match self.symbol() {
            Symbol::LoopStart => LoopRole::Start,
            Symbol::LoopEnd => LoopRole::End,
            _ => LoopRole::Neither,
        }
    }

    fn is_loop_start(&self) -> (b: bool) {
        self.classify() == Symbol::LoopStart
    }

    fn is_loop_end(&self) -> (b: bool) {
        self.classify() == Symbol::LoopEnd
    }
}

pub type UcTokens = Vec<UcToken>;

/// The views of a sequence of tokens.
pub open spec fn token_views(tokens: Seq<UcToken>) -> Seq<(usize, Seq<char>)> {
    tokens.map_values(|t: UcToken| t@)
}

} // verus!

verus! {

/// Why a source could not be had or compiled.
#[derive(Debug, PartialEq, Eq, PartialOrd, Ord, Hash)]
pub enum UcSourceFileError<'src_file> {
    /// The text could not be read from `path`.
    FileFailToRead { path: String, reason: String },
    /// A loop bracket of `src_file` has no partner.
    UnmatchedParen { src_file: &'src_file UcSourceFile, details: ExtraParen },
}

impl<'src_file> Clone for UcSourceFileError<'src_file> {
    fn clone(&self) -> (error: Self)
        ensures
            error == *self,
    {
        match self {
            UcSourceFileError::FileFailToRead { path, reason } => UcSourceFileError::FileFailToRead {
                path: path.clone(),
                reason: reason.clone(),
            },
            UcSourceFileError::UnmatchedParen { src_file, details } => {
                UcSourceFileError::UnmatchedParen { src_file: *src_file, details: *details }
            },
        }
    }
}

impl<'src_file> UcSourceFileError<'src_file> {
    /// What the error says to a reader.
    pub open spec fn message_text(self) -> Seq<char> {
        match self {
            UcSourceFileError::FileFailToRead { path, reason } => "failed to read "@ + path@ + ", "@
                + reason@,
            UcSourceFileError::UnmatchedParen { .. } => "unmatched paren"@,
        }
    }

    /// What the error says to a reader.
    pub fn message(&self) -> (text: String)
        ensures
            text@ == self.message_text(),
    {
        match self {
            UcSourceFileError::FileFailToRead { path, reason } => {
                String::from_str("failed to read ").concat(path.as_str()).concat(", ").concat(
                    reason.as_str(),
                )
            },
            UcSourceFileError::UnmatchedParen { .. } => String::from_str("unmatched paren"),
        }
    }
}

/// A source: a label, the raw text, and the tokens of the text.
#[derive(Debug, PartialEq, Eq, PartialOrd, Ord, Hash)]
pub struct UcSourceFile {
    filename: String,
    raw_content: String,
    uc_content: UcTokens,
}

impl Clone for UcSourceFile {
    fn clone(&self) -> (src: Self)
        ensures
            src@ == self@,
    {
        let src = Self {
            filename: self.filename.clone(),
            raw_content: self.raw_content.clone(),
            uc_content: self.uc_content.clone(),
        };
        assert(token_views(src.uc_content@) =~= token_views(self.uc_content@));
        src
    }
}

impl View for UcSourceFile {
    type V = SourceView;

    closed spec fn view(&self) -> SourceView {
        SourceView {
            filename: self.filename@,
            raw_content: self.raw_content@,
            tokens: token_views(self.uc_content@),
        }
    }
}

impl UcSourceFile {
    /// Splits `raw` into tokens, one for each extended grapheme cluster.
    pub fn lex(raw: &str) -> (tokens: UcTokens)
        ensures
            token_views(tokens@) == grapheme_indices(raw@, true),
            is_segmentation(raw@, token_views(tokens@)),
            texts_of(token_views(tokens@)).flatten() == raw@,
    {
        let clusters = grapheme_clusters(raw, true);
        let mut tokens: Vec<UcToken> = Vec::with_capacity(clusters.len());
        let mut i: usize = 0;
        while i < clusters.len()
            invariant
                i <= clusters.len(),
                tokens.len() == i,
                forall|j: int| 0 <= j < i ==> (#[trigger] tokens[j])@ == clusters.deep_view()[j],
            decreases clusters.len() - i,
        {
            let token = UcToken::new(RawContentIndex::new(clusters[i].0), clusters[i].1.as_str());
            tokens.push(token);
            i += 1;
        }
        assert(token_views(tokens@) =~= clusters.deep_view());
        tokens
    }

    /// The source with the text `s` and the label `pseudo_filename`.
    pub fn from_str(s: &str, pseudo_filename: &str) -> (src: Self)
        ensures
            src@.filename == pseudo_filename@,
            src@.raw_content == s@,
            src@.tokens == grapheme_indices(s@, true),
            src@.wf(),
            texts_of(src@.tokens).flatten() == s@,
    {
        Self {
            filename: String::from_str(pseudo_filename),
            raw_content: String::from_str(s),
            uc_content: Self::lex(s),
        }
    }

    /// The number of tokens.
    pub fn len(&self) -> (n: usize)
        ensures
            n == self@.tokens.len(),
    {
        self.uc_content.len()
    }

    pub fn is_empty(&self) -> (b: bool)
        ensures
            b == (self@.tokens.len() == 0),
    {
        self.uc_content.len() == 0
    }

    /// The label.
    pub fn filename(&self) -> (name: &str)
        ensures
            name@ == self@.filename,
    {
        self.filename.as_str()
    }

    /// The raw text.
    pub fn raw_content(&self) -> (raw: &str)
        ensures
            raw@ == self@.raw_content,
    {
        self.raw_content.as_str()
    }

    /// The tokens, in order.
    pub fn tokens(&self) -> (tokens: &[UcToken])
        ensures
            token_views(tokens@) == self@.tokens,
    {
        self.uc_content.as_slice()
    }

    /// The tokens, one after the other.
    pub fn iter(&self) -> (tokens: std::slice::Iter<'_, UcToken>)
        ensures
            token_views(vstd::std_specs::slice::into_iter_elts(tokens)) == self@.tokens,
    {
        broadcast use vstd::std_specs::slice::axiom_spec_slice_iter;

        let tokens = self.uc_content.as_slice().iter();
        assert(vstd::std_specs::slice::into_iter_elts(tokens) =~= self.uc_content@);
        tokens
    }

    /// The token that the instruction pointer `instr_ptr` points at.
    pub fn at_instr_ptr(&self, instr_ptr: usize) -> (token: &UcToken)
        requires
            instr_ptr < self@.tokens.len(),
        ensures
            token@ == self@.tokens[instr_ptr as int],
    {
        &self.uc_content[instr_ptr]
    }

    /// The length of the longest run of tokens that mean `symbol`, from
    /// token `i`, which means `symbol`, on.
    fn run_length(&self, i: usize, symbol: Symbol) -> (n: usize)
        requires
            i < self@.tokens.len(),
            self@.symbols()[i as int] == symbol,
        ensures
            n == run_len(self@.symbols(), i as int),
            i + n <= self@.tokens.len(),
    {
        let ghost symbols = self@.symbols();
        let n = self.uc_content.len();
        let mut j: usize = i + 1;
        while j < n && self.uc_content[j].classify() == symbol
            invariant
                i < j <= n == self.uc_content.len(),
                symbols == self@.symbols(),
                symbols[i as int] == symbol,
                forall|t: int| i <= t < j ==> symbols[t] == symbol,
            decreases n - j,
        {
            j += 1;
        }
        proof {
            lemma_run_len(symbols, i as int, j - i);
        }
        j - i
    }

    /// Compiles the source: one byte code for each loop bracket and for each
    /// longest run of equal plain instructions, in the order of the source,
    /// with every jump holding the index of its partner among the byte codes.
    /// Fails if a bracket has no partner; the index in the error counts byte
    /// codes.
    pub fn to_byte_codes(&self) -> (r: Result<Vec<ByteCode>, UcSourceFileError<'_>>)
        requires
            self@.wf(),
        ensures
            r is Ok <==> balanced(run_roles(self@.symbols())),
            match r {
                Ok(codes) => {
                    &&& balanced(run_roles(self@.symbols()))
                    &&& views_of(codes@) == compiled(self@)
                    &&& runnable(views_of(codes@))
                },
                Err(UcSourceFileError::UnmatchedParen { src_file, details }) => src_file@ == self@
                    && match details {
                    ExtraParen::Right(e) => first_unmatched_end(run_roles(self@.symbols()), e as int),
                    ExtraParen::Left(s) => last_unmatched_start(run_roles(self@.symbols()), s as int),
                },
                Err(UcSourceFileError::FileFailToRead { .. }) => false,
            },
    {
        let n = self.uc_content.len();
        let ghost src = self@;
        let ghost symbols = src.symbols();
        let mut byte_codes: Vec<ByteCode> = Vec::with_capacity(n);
        let mut idx_in_ucs = UcContentIndex::new(0);
        let mut row: usize = 0;
        let mut column: usize = 0;
        while idx_in_ucs != UcContentIndex::new(n)
            invariant
                n == self.uc_content.len(),
                src == self@,
                symbols == src.symbols(),
                src.wf(),
                idx_in_ucs.0 <= n,
                row == row_at(symbols, idx_in_ucs.0 as int),
                column == column_at(symbols, idx_in_ucs.0 as int),
                views_of(byte_codes@) + emitted_from(src, idx_in_ucs.0 as int) == emitted_from(
                    src,
                    0,
                ),
            decreases n - idx_in_ucs.0,
        {
            let i = idx_in_ucs.get();
            let token = &self.uc_content[i];
            let symbol = token.classify();
            let start = SourcePosition::new(row, column, token.idx_in_raw());
            let ghost before = byte_codes@;
            proof {
                lemma_emitted_step(src, i as int);
                lemma_position_bounds(symbols, i as int);
                assert(start == position_at(src, i as int));
            }
            let idx_in_ucs_fwd: usize = match ByteCodeKind::from_symbol(symbol) {
                None => {
                    if symbol == Symbol::Newline {
                        row += 1;
                        column = 0;
                    } else {
                        column += 1;
                    }
                    1
                },
                Some(kind) => {
                    let arg: usize = if kind.jumps() {
                        1
                    } else {
                        self.run_length(i, symbol)
                    };
                    proof {
                        lemma_run_holds(symbols, i as int);
                        assert forall|t: int| i <= t < i + arg implies (
                        #[trigger] symbols[t]).is_instruction() by {}
                        lemma_run_bytes(src, i as int, arg as int);
                        lemma_position_over_run(symbols, i as int, arg as int);
                    }
                    let code = if kind.jumps() {
                        ByteCode::make_uninit_jump_code(kind, start)
                    } else {
                        ByteCode::make_non_jump_code(kind, start, arg)
                    };
                    byte_codes.push(code);
                    column += arg;
                    proof {
                        assert(views_of(byte_codes@) =~= views_of(before).push(code@));
                        assert(views_of(before).push(code@) + emitted_from(src, i + arg)
                            =~= views_of(before) + (seq![code@] + emitted_from(src, i + arg)));
                    }
                    arg
                },
            };
            idx_in_ucs = UcContentIndex::inc_from(idx_in_ucs, idx_in_ucs_fwd);
        }
        let ghost emitted = emitted_from(src, 0);
        let ghost roles = code_roles(emitted);
        proof {
            assert(views_of(byte_codes@) =~= emitted);
            assert(roles_of(byte_codes@) =~= roles);
            assert(roles =~= run_roles(symbols));
        }
        let loop_matches = match populate_loop_boundaries(byte_codes.as_slice()) {
            Ok(loop_matches) => loop_matches,
            Err(e) => {
                return Err(UcSourceFileError::UnmatchedParen { src_file: self, details: e });
            },
        };
        let mut j: usize = 0;
        while j < byte_codes.len()
            invariant
                j <= byte_codes.len() == emitted.len(),
                emitted == emitted_from(src, 0),
                roles == code_roles(emitted),
                balanced(roles),
                is_table_of(loop_matches@, roles),
                forall|t: int| 0 <= t < j ==> (#[trigger] byte_codes[t])@ == resolved(emitted)[t],
                forall|t: int| j <= t < byte_codes.len() ==> (#[trigger] byte_codes[t])@ == emitted[t],
            decreases byte_codes.len() - j,
        {
            let kind = byte_codes[j].kind();
            if kind.jumps() {
                proof {
                    lemma_table_gives_partner(loop_matches@, roles, j);
                }
                let target = match kind {
                    ByteCodeKind::LoopStartJumpIfDataZero => loop_matches.get_matching_end(j),
                    _ => loop_matches.get_matching_start(j),
                };
                byte_codes[j].correct_jump(UcContentIndex::new(target));
            }
            j += 1;
        }
        proof {
            assert(views_of(byte_codes@) =~= compiled(src));
            lemma_compiled(src);
        }
        Ok(byte_codes)
    }
}

} // verus!
