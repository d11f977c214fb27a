//! Populate a typed configuration from command-line arguments and a
//! `.env`-style key-value file.
//!
//! The library parses the file contents and the argument list into
//! string-to-string mappings, merges them with argument values taking
//! precedence, and coerces each raw string into its most specific scalar
//! value (boolean, integer, float text, or string). The final structured
//! decode into a caller-declared type is left to the embedding
//! application.

use vstd::prelude::*;

pub mod args;
pub mod coerce;
pub mod envfile;
pub mod kv;
pub mod numbers;
pub mod text;

verus! {

/// Characters that count as whitespace when lines, keys and values are
/// trimmed: the characters with the Unicode `White_Space` property.
pub open spec fn is_space(c: char) -> bool {
    ||| c == ' '
    ||| c == '\t'
    ||| c == '\n'
    ||| c == '\u{0b}'
    ||| c == '\u{0c}'
    ||| c == '\r'
    ||| c == '\u{85}'
    ||| c == '\u{a0}'
    ||| c == '\u{1680}'
    ||| ('\u{2000}' <= c && c <= '\u{200a}')
    ||| c == '\u{2028}'
    ||| c == '\u{2029}'
    ||| c == '\u{202f}'
    ||| c == '\u{205f}'
    ||| c == '\u{3000}'
}

/// The merged mapping the file contents and the arguments describe:
/// the file-sourced mapping with every argument-sourced pair inserted
/// over it.
pub open spec fn merged_spec(contents: Seq<char>, args: Seq<Seq<char>>) -> Map<
    Seq<char>,
    Seq<char>,
> {
    crate::envfile::parse_env_spec(contents).union_prefer_right(crate::args::args_kv_spec(args))
}

/// Extract both mappings and merge them, argument values winning on
/// key collisions. This is the whole pipeline short of reading the
/// file and the argument list, and short of the final typed decode.
pub fn merged_config(file_contents: &str, args: &Vec<String>) -> (r: crate::kv::KvMap)
    ensures
        r.wf(),
        r@ == merged_spec(file_contents@, args.deep_view()),
{
    let file_kv = crate::envfile::parse_env_file(file_contents);
    let arg_kv = crate::args::kv_from_args(args);
    crate::kv::merge(&file_kv, &arg_kv)
}

/// The pipeline is deterministic: running it twice on identical file
/// contents and identical arguments describes identical mappings, as
/// there is no hidden state.
pub proof fn lemma_pipeline_deterministic(
    contents1: Seq<char>,
    args1: Seq<Seq<char>>,
    m1: Map<Seq<char>, Seq<char>>,
    contents2: Seq<char>,
    args2: Seq<Seq<char>>,
    m2: Map<Seq<char>, Seq<char>>,
)
    requires
        m1 == merged_spec(contents1, args1),
        m2 == merged_spec(contents2, args2),
        contents1 == contents2,
        args1 == args2,
    ensures
        m1 == m2,
{
}

/// Whether `c` counts as whitespace for trimming.
pub fn is_space_char(c: char) -> (r: bool)
    ensures
        r == is_space(c),
{
    c == ' ' || c == '\t' || c == '\n' || c == '\u{0b}' || c == '\u{0c}' || c == '\r'
        || c == '\u{85}' || c == '\u{a0}' || c == '\u{1680}'
        || ('\u{2000}' <= c && c <= '\u{200a}') || c == '\u{2028}' || c == '\u{2029}'
        || c == '\u{202f}' || c == '\u{205f}' || c == '\u{3000}'
}

} // verus!
