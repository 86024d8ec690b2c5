//! Post-processing of transcribed text: processors looked up by name.

use vstd::prelude::*;

use crate::text::str_eq;

pub mod pinyin;

use self::pinyin::{pinyin_output, PinyinPostProcesser};

verus! {

/// A text post-processor that transforms transcribed text.
pub trait TextPostProcesser {
    /// Name used in `--post="+name(args)"`.
    fn processer_name() -> &'static str;

    /// Runs the processor on `text` with the arguments parsed from
    /// `--post="+name(arg1, arg2)"`.
    fn process(param: &[&str], text: &str) -> String;
}

/// What running the processor `name` on `text` with `args` gives: `None`
/// when no processor has that name.
pub open spec fn run_result(text: Seq<char>, name: Seq<char>, args: Seq<Seq<char>>) -> Option<
    Seq<char>,
> {
    if name == "pinyin"@ {
        Some(pinyin_output(args, text))
    } else {
        None
    }
}

/// Looks up a processor by name and runs it; `None` when no processor has
/// that name.
pub fn run(text: &str, name: &str, args: &[&str]) -> (r: Option<String>)
    ensures
        opt_chars(r) == run_result(text@, name@, args@.map_values(|a: &str| a@)),
{
    if str_eq(name, <PinyinPostProcesser as TextPostProcesser>::processer_name()) {
        Some(<PinyinPostProcesser as TextPostProcesser>::process(args, text))
    } else {
        None
    }
}

/// The characters of an optional string.
pub open spec fn opt_chars(o: Option<String>) -> Option<Seq<char>> {
    match o {
        Some(s) => Some(s@),
        None => None,
    }
}

} // verus!
