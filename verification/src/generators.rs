//! Options of the template scaffolder's code generators, and the parsing of
//! a generator's name.
use vstd::prelude::*;

use std::collections::HashMap;
use std::path::PathBuf;

use vstd::string::StrSliceExecFns;

verus! {

/// Declares `serde_json::Value` to Verus as an opaque type.
#[verifier::external_type_specification]
#[verifier::external_body]
pub struct ExJsonValue(serde_json::Value);

/// Declares `std::path::PathBuf` to Verus as an opaque type.
#[verifier::external_type_specification]
#[verifier::external_body]
pub struct ExPathBuf(PathBuf);

/// Where a generator writes its output, and the options of the liquid
/// template generator.
#[derive(Debug)]
pub struct GeneratorOpts {
    pub output_path: PathBuf,
    pub liquid: Option<LiquidGeneratorOpts>,
}

/// Options of the liquid template generator: whether to skip formatting the
/// output, and the variables handed to the templates.
#[derive(Debug)]
pub struct LiquidGeneratorOpts {
    pub skip_format: bool,
    pub variables: HashMap<String, serde_json::Value>,
}

impl LiquidGeneratorOpts {
    /// The default options: formatting is not skipped and there are no
    /// variables.
    pub fn default_opts() -> (r: Self)
        ensures
            !r.skip_format,
            r.variables@ == Map::<String, serde_json::Value>::empty(),
    {
        LiquidGeneratorOpts { skip_format: false, variables: HashMap::new() }
    }
}

impl Default for LiquidGeneratorOpts {
    fn default() -> (r: Self)
        ensures
            !r.skip_format,
            r.variables@ == Map::<String, serde_json::Value>::empty(),
    {
        Self::default_opts()
    }
}

/// The kinds of code generator.
#[derive(Debug, Clone, Copy, PartialEq, Eq, Structural)]
pub enum GeneratorType {
    /// A command-line client for a Rust template.
    RustTemplateCli,
}

/// The name was not that of any generator.
#[derive(Debug, Clone, Copy, PartialEq, Eq, Structural)]
pub struct InvalidGeneratorType;

impl InvalidGeneratorType {
    /// The message of the error.
    pub fn message(&self) -> (r: String)
        ensures
            r@ == "Invalid generator type"@,
    {
        String::from_str("Invalid generator type")
    }
}

/// The name by which a generator is chosen.
pub open spec fn generator_name(g: GeneratorType) -> Seq<char> {
    match g {
        GeneratorType::RustTemplateCli => "rust-template-cli"@,
    }
}

/// Whether the strings `a` and `b` hold the same characters.
fn str_equal(a: &str, b: &str) -> (r: bool)
    ensures
        r == (a@ == b@),
{
    let n = a.unicode_len();
    if n != b.unicode_len() {
        return false;
    }
    let mut i: usize = 0;
    while i < n
        invariant
            i <= n,
            n == a@.len(),
            n == b@.len(),
            forall|j: int| 0 <= j < i ==> a@[j] == b@[j],
        decreases n - i,
    {
        if a.get_char(i) != b.get_char(i) {
            return false;
        }
        i = i + 1;
    }
    assert(a@ =~= b@);
    true
}

impl GeneratorType {
    /// The generator named `s`; `rust-template-cli` is the only name.
    pub fn parse(s: &str) -> (r: Result<GeneratorType, InvalidGeneratorType>)
        ensures
            r is Ok <==> s@ == "rust-template-cli"@,
            r matches Ok(g) ==> generator_name(g) == s@,
    {
        if str_equal(s, "rust-template-cli") {
            Ok(GeneratorType::RustTemplateCli)
        } else {
            Err(InvalidGeneratorType)
        }
    }
}

impl std::str::FromStr for GeneratorType {
    type Err = InvalidGeneratorType;

    fn from_str(s: &str) -> (r: Result<Self, Self::Err>)
        ensures
            r is Ok <==> s@ == "rust-template-cli"@,
            r matches Ok(g) ==> generator_name(g) == s@,
    {
        Self::parse(s)
    }
}

} // verus!
