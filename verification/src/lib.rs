//! An interpreter for a tape language of eight one-character instructions.
//!
//! Text is split into tokens, one grapheme cluster each (`source_file`, on
//! `text`); each token means an instruction, a line break or a comment
//! (`symbol`); loop brackets are matched with a stack (`utility`); runs of
//! equal instructions are folded into byte codes with resolved jumps
//! (`byte_code`, `compile`); and a machine with a wrap-around tape of bytes
//! executes either the tokens or the byte codes through a port
//! (`machine`, `source_file_machine`, `machine_io`).
//!
//! What a machine does is stated over `machine_model`, the machine as a
//! value. That both ways of executing a source come to the same is proved in
//! `equivalence`.

pub mod byte_code;
pub mod compile;
pub mod equivalence;
pub mod machine;
pub mod machine_io;
pub mod machine_model;
pub mod source_file;
pub mod source_file_machine;
pub mod symbol;
pub mod text;
pub mod utility;
