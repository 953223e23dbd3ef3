use vstd::prelude::*;

verus! {

/// The output language a `trace_*` function renders generated code in.
#[derive(Clone, Copy, Debug, PartialEq, Eq, Structural)]
pub enum Language {
    Cpp,
    Rust,
}

/// The name cricket uses for each output language.
pub open spec fn language_name(language: Language) -> Seq<char> {
    match language {
        Language::Cpp => "c++"@,
        Language::Rust => "rust"@,
    }
}

impl Language {
    /// The name under which cricket knows this language.
    pub fn as_str(self) -> (s: &'static str)
        ensures
            s@ == language_name(self),
    {
        match self {
            Language::Cpp => "c++",
            Language::Rust => "rust",
        }
    }
}

impl Default for Language {
    /// C++ is the language generated code is rendered in unless another is asked for.
    fn default() -> (language: Self)
        ensures
            language == Language::Cpp,
    {
        Language::Cpp
    }
}

/// One fragment of traced, code-generated kinematics/collision code, along with the temporary
/// variable and output counts the template needs to declare buffers for it.
#[derive(Clone, Debug, PartialEq)]
pub struct Traced {
    pub code: String,
    pub temp_variables: usize,
    pub outputs: usize,
}

} // verus!
