//! Text handling for a dictation assistant: the final clean-up of a
//! transcript, the trimming of injected context, the decisions taken on
//! what the accessibility layer reads from the focused field and the
//! foreground application, and the protocol that registers the typing helper.

pub mod text;

pub mod whitespace;
pub mod text_finalize;
pub mod input_context;
pub mod utf16;
pub mod accessibility;
pub mod foreground;
pub mod karabiner_typing;
