//! How Mortar assets are recognised and compiled: `.mortar` source files
//! are compiled to the JSON form of a script, `.mortared` files hold that
//! JSON already.

use vstd::prelude::*;
use crate::compiled::{compiled_script, deserialize_script, CompiledScript};
use crate::text::text_eq;

verus! {

/// The loader of Mortar assets.
pub struct MortarAssetLoader;

/// How an asset file is read.
#[derive(Debug, Clone, Copy, PartialEq, Eq, Structural)]
pub enum MortarSourceKind {
    /// Mortar source, compiled when loaded.
    Source,
    /// A compiled script (`.mortared` JSON).
    Compiled,
}

/// Whether the Mortar compiler accepts `source` (read as the file
/// `file_name`, with diagnostics in Chinese when `chinese`): no error in its
/// diagnostics, a parsed program, and a program it can write out as JSON.
pub uninterp spec fn compiles(source: Seq<char>, file_name: Seq<char>, chinese: bool) -> bool;

/// Compiles Mortar source with `mortar_compiler`:
/// `ParseHandler::parse_source_code_with_diagnostics_and_language`, then
/// `Serializer::serialize_to_json` (pretty). The result is the compiler's
/// JSON, or its error message when the diagnostics hold an error, the
/// parse fails or the serialisation fails. Whether it succeeds depends on
/// the arguments alone (named [`compiles`]); the JSON itself is not
/// described, as the compiler writes the current time into it.
#[verifier::external_body]
pub fn compile_source(source: &str, file_name: &str, chinese: bool) -> (r: Result<String, String>)
    ensures
        r is Ok <==> compiles(source@, file_name@, chinese),
{
    let language = if chinese { mortar_compiler::Language::Chinese } else { mortar_compiler::Language::English };
    let (parsed, diagnostics) = mortar_compiler::ParseHandler::parse_source_code_with_diagnostics_and_language(
        source, file_name.to_string(), false, language);
    if diagnostics.has_errors() {
        return Err("Mortar compilation failed with errors".to_string());
    }
    let program = parsed.map_err(|e| e.to_string())?;
    mortar_compiler::Serializer::serialize_to_json(&program, true)
}

/// Whether a locale (the value of `LANG` or `LANGUAGE`) is Chinese: once
/// lower-cased it begins with `zh`.
pub open spec fn chinese_locale_spec(locale: Seq<char>) -> bool {
    &&& locale.len() >= 2
    &&& (locale[0] == 'z' || locale[0] == 'Z')
    &&& (locale[1] == 'h' || locale[1] == 'H')
}

/// Whether diagnostics are given in Chinese for `locale` (see
/// [`chinese_locale_spec`]); every other locale gives English.
pub fn is_chinese_locale(locale: &str) -> (r: bool)
    ensures
        r == chinese_locale_spec(locale@),
{
    let n = locale.unicode_len();
    if n < 2 {
        return false;
    }
    let a = locale.get_char(0);
    let b = locale.get_char(1);
    (a == 'z' || a == 'Z') && (b == 'h' || b == 'H')
}

/// Whether an asset file's extension is `name`.
pub open spec fn has_extension(extension: Option<&str>, name: Seq<char>) -> bool {
    extension matches Some(e) && e@ == name
}

impl MortarAssetLoader {
    /// Reads a compiled script (the text of a `.mortared` file): the script
    /// the deserializer reads from it, or the deserializer's error.
    pub fn load_compiled(json: &str) -> (r: Result<CompiledScript, String>)
        ensures
            r is Ok <==> compiled_script(json@) is Some,
            r matches Ok(s) ==> compiled_script(json@) == Some(s),
    {
        deserialize_script(json)
    }

    /// Compiles Mortar source (see [`compile_source`]) and reads the script
    /// it compiles to. It fails whenever the source does not compile; what
    /// it gives is a script the deserializer reads from a compiled text.
    pub fn load_source(source: &str, file_name: &str, chinese: bool) -> (r: Result<CompiledScript, String>)
        ensures
            !compiles(source@, file_name@, chinese) ==> r is Err,
            r matches Ok(s) ==> compiles(source@, file_name@, chinese)
                && exists|json: Seq<char>| compiled_script(json) == Some(s),
    {
        let json = compile_source(source, file_name, chinese)?;
        deserialize_script(json.as_str())
    }

    /// Loads an asset file from its text, by its extension: `.mortar` files
    /// are compiled (with diagnostics named as `file_name`, in Chinese when
    /// `chinese`), `.mortared` files read as compiled scripts, and any other
    /// file is refused.
    pub fn load(extension: Option<&str>, text: &str, file_name: &str, chinese: bool) -> (r: Result<CompiledScript, String>)
        ensures
            has_extension(extension, "mortar"@) ==> {
                &&& !compiles(text@, file_name@, chinese) ==> r is Err
                &&& r matches Ok(s) ==> compiles(text@, file_name@, chinese)
                    && exists|json: Seq<char>| compiled_script(json) == Some(s)
            },
            has_extension(extension, "mortared"@) ==> {
                &&& r is Ok <==> compiled_script(text@) is Some
                &&& r matches Ok(s) ==> compiled_script(text@) == Some(s)
            },
            !has_extension(extension, "mortar"@) && !has_extension(extension, "mortared"@) ==>
                (r matches Err(m) && m@ == "Unsupported file extension"@),
    {
        proof {
            reveal_strlit("mortar");
            reveal_strlit("mortared");
        }
        let kind = Self::source_kind(extension);
        assert("mortar"@ != "mortared"@) by {
            assert("mortar"@.len() != "mortared"@.len());
        }
        match kind {
            Some(MortarSourceKind::Source) => Self::load_source(text, file_name, chinese),
            Some(MortarSourceKind::Compiled) => Self::load_compiled(text),
            None => Err("Unsupported file extension".to_string()),
        }
    }

    /// The kind of file an extension names; none for other extensions
    /// (the loader refuses those files).
    pub fn source_kind(extension: Option<&str>) -> (r: Option<MortarSourceKind>)
        ensures
            r == match extension {
                Some(e) => if e@ == "mortar"@ {
                    Some(MortarSourceKind::Source)
                } else if e@ == "mortared"@ {
                    Some(MortarSourceKind::Compiled)
                } else {
                    None
                },
                None => None,
            },
    {
        match extension {
            Some(e) => if text_eq(e, "mortar") {
                Some(MortarSourceKind::Source)
            } else if text_eq(e, "mortared") {
                Some(MortarSourceKind::Compiled)
            } else {
                None
            },
            None => None,
        }
    }
}

} // verus!
