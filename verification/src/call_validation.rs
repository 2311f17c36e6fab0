use vstd::prelude::*;
use std::collections::HashMap;

verus! {

/// Where the caret stands in a source file.
#[derive(Debug)]
pub struct CursorPosition {
    pub file: String,
    pub line: i32,
    pub character: i32,
}

/// The sources and caret a completion request works on.
#[derive(Debug)]
pub struct CodeCompletionInputs {
    pub sources: HashMap<String, String>,
    pub cursor: CursorPosition,
    pub multiline: bool,
}

/// A code-completion request.
#[derive(Debug)]
pub struct CodeCompletionPost {
    pub model: String,
    pub stream: bool,
    pub inputs: CodeCompletionInputs,
}

} // verus!
