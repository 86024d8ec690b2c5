//! Chinese characters to pinyin, through the `pinyin` crate.

use vstd::prelude::*;

use crate::post_proc::TextPostProcesser;
use crate::text::{join_strings, join_with, str_eq};

verus! {

/// What `pinyin::to_pinyin_vec(text, Pinyin::plain)` returns: one toneless
/// syllable for every character of `text` that has a reading.
pub uninterp spec fn pinyin_plain(text: Seq<char>) -> Seq<Seq<char>>;

/// What `pinyin::to_pinyin_vec(text, Pinyin::with_tone)` returns: one
/// syllable with tone marks for every character that has a reading.
pub uninterp spec fn pinyin_with_tone(text: Seq<char>) -> Seq<Seq<char>>;

/// What `pinyin::to_pinyin_vec(text, Pinyin::with_tone_num_end)` returns: one
/// syllable with the tone number at its end for every character that has a
/// reading.
pub uninterp spec fn pinyin_tone_num_end(text: Seq<char>) -> Seq<Seq<char>>;

/// What `pinyin::to_pinyin_vec(text, Pinyin::first_letter)` returns: the
/// first letter of the syllable of every character that has a reading.
pub uninterp spec fn pinyin_first_letter(text: Seq<char>) -> Seq<Seq<char>>;

/// Calls `pinyin::to_pinyin_vec` with `Pinyin::plain`. The crate maps each
/// character of `text` to at most one syllable and skips characters without
/// a reading, so there are no more syllables than characters.
#[verifier::external_body]
fn syllables_plain(text: &str) -> (r: Vec<String>)
    ensures
        r.deep_view() == pinyin_plain(text@),
        r@.len() <= text@.len(),
{
    ::pinyin::to_pinyin_vec(text, ::pinyin::Pinyin::plain).iter().map(|s| s.to_string()).collect()
}

/// Calls `pinyin::to_pinyin_vec` with `Pinyin::with_tone`; at most one
/// syllable per character.
#[verifier::external_body]
fn syllables_with_tone(text: &str) -> (r: Vec<String>)
    ensures
        r.deep_view() == pinyin_with_tone(text@),
        r@.len() <= text@.len(),
{
    ::pinyin::to_pinyin_vec(text, ::pinyin::Pinyin::with_tone).iter().map(|s| s.to_string()).collect()
}

/// Calls `pinyin::to_pinyin_vec` with `Pinyin::with_tone_num_end`; at most
/// one syllable per character.
#[verifier::external_body]
fn syllables_tone_num_end(text: &str) -> (r: Vec<String>)
    ensures
        r.deep_view() == pinyin_tone_num_end(text@),
        r@.len() <= text@.len(),
{
    ::pinyin::to_pinyin_vec(text, ::pinyin::Pinyin::with_tone_num_end).iter().map(
        |s| s.to_string(),
    ).collect()
}

/// Calls `pinyin::to_pinyin_vec` with `Pinyin::first_letter`; at most one
/// letter per character.
#[verifier::external_body]
fn syllables_first_letter(text: &str) -> (r: Vec<String>)
    ensures
        r.deep_view() == pinyin_first_letter(text@),
        r@.len() <= text@.len(),
{
    ::pinyin::to_pinyin_vec(text, ::pinyin::Pinyin::first_letter).iter().map(
        |s| s.to_string(),
    ).collect()
}

/// The romanisation styles.
#[derive(Clone, Copy, Debug, PartialEq, Eq, Structural)]
pub enum PinyinStyle {
    /// `ni hao` (the default)
    Plain,
    /// `nǐ hǎo`
    Tone,
    /// `ni3 hao3`
    ToneNum,
    /// `n h`
    FirstLetter,
}

/// The style a processor argument names; anything unknown is plain.
pub open spec fn style_named(s: Seq<char>) -> PinyinStyle {
    if s == "tone"@ {
        PinyinStyle::Tone
    } else if s == "tone-num"@ || s == "tone_num"@ {
        PinyinStyle::ToneNum
    } else if s == "first-letter"@ || s == "first_letter"@ {
        PinyinStyle::FirstLetter
    } else {
        PinyinStyle::Plain
    }
}

/// The style the processor's arguments choose: the first argument, plain
/// when there is none.
pub open spec fn style_of(param: Seq<Seq<char>>) -> PinyinStyle {
    if param.len() > 0 {
        style_named(param[0])
    } else {
        PinyinStyle::Plain
    }
}

/// The syllables of `text` in a style.
pub open spec fn syllables(style: PinyinStyle, text: Seq<char>) -> Seq<Seq<char>> {
    match style {
        PinyinStyle::Plain => pinyin_plain(text),
        PinyinStyle::Tone => pinyin_with_tone(text),
        PinyinStyle::ToneNum => pinyin_tone_num_end(text),
        PinyinStyle::FirstLetter => pinyin_first_letter(text),
    }
}

/// What the processor gives: the syllables, separated by single spaces.
pub open spec fn pinyin_output(param: Seq<Seq<char>>, text: Seq<char>) -> Seq<char> {
    join_with(syllables(style_of(param), text), " "@)
}

/// Picks the style an argument names.
pub fn parse_style(s: &str) -> (r: PinyinStyle)
    ensures
        r == style_named(s@),
{
    if str_eq(s, "tone") {
        PinyinStyle::Tone
    } else if str_eq(s, "tone-num") || str_eq(s, "tone_num") {
        PinyinStyle::ToneNum
    } else if str_eq(s, "first-letter") || str_eq(s, "first_letter") {
        PinyinStyle::FirstLetter
    } else {
        PinyinStyle::Plain
    }
}

/// Converts Chinese characters to pinyin (romanized phonetic representation).
///
/// # Styles
/// - `plain` — ni hao (default)
/// - `tone` — nǐ hǎo (with tone marks)
/// - `tone-num` — ni3 hao3 (tone number at end)
/// - `first-letter` — n h (first letter only)
pub struct PinyinPostProcesser;

impl TextPostProcesser for PinyinPostProcesser {
    fn processer_name() -> (r: &'static str)
        ensures
            r@ == "pinyin"@,
    {
        "pinyin"
    }

    fn process(param: &[&str], text: &str) -> (r: String)
        ensures
            r@ == pinyin_output(param@.map_values(|a: &str| a@), text@),
    {
        let style = if param.len() > 0 {
            parse_style(param[0])
        } else {
            PinyinStyle::Plain
        };
        let parts = match style {
            PinyinStyle::Plain => syllables_plain(text),
            PinyinStyle::Tone => syllables_with_tone(text),
            PinyinStyle::ToneNum => syllables_tone_num_end(text),
            PinyinStyle::FirstLetter => syllables_first_letter(text),
        };
        join_strings(&parts, " ")
    }
}

} // verus!
