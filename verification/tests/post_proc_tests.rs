use dmvop::post_proc::pinyin::{parse_style, PinyinPostProcesser, PinyinStyle};
use dmvop::post_proc::{run, TextPostProcesser};

#[test]
fn pinyin_is_the_processor_name() {
    assert_eq!(PinyinPostProcesser::processer_name(), "pinyin");
}

#[test]
fn pinyin_plain_is_the_default() {
    assert_eq!(PinyinPostProcesser::process(&[], "拼音"), "pin yin");
    assert_eq!(PinyinPostProcesser::process(&["plain"], "中国"), "zhong guo");
    assert_eq!(PinyinPostProcesser::process(&["other"], "中国"), "zhong guo");
}

#[test]
fn pinyin_styles() {
    assert_eq!(PinyinPostProcesser::process(&["tone"], "拼音"), "pīn yīn");
    assert_eq!(PinyinPostProcesser::process(&["tone-num"], "拼音"), "pin1 yin1");
    assert_eq!(PinyinPostProcesser::process(&["tone_num"], "中国"), "zhong1 guo2");
    assert_eq!(PinyinPostProcesser::process(&["first-letter"], "中国"), "z g");
    assert_eq!(PinyinPostProcesser::process(&["first_letter", "x"], "安心"), "a x");
}

#[test]
fn pinyin_skips_characters_without_reading() {
    assert_eq!(PinyinPostProcesser::process(&[], "a中b国!"), "zhong guo");
    assert_eq!(PinyinPostProcesser::process(&[], "hello"), "");
}

#[test]
fn style_names() {
    assert_eq!(parse_style("tone"), PinyinStyle::Tone);
    assert_eq!(parse_style("tone-num"), PinyinStyle::ToneNum);
    assert_eq!(parse_style("first_letter"), PinyinStyle::FirstLetter);
    assert_eq!(parse_style("TONE"), PinyinStyle::Plain);
}

#[test]
fn run_looks_processors_up_by_name() {
    assert_eq!(run("拼音", "pinyin", &[]), Some("pin yin".to_string()));
    assert_eq!(run("拼音", "pinyin", &["first-letter"]), Some("p y".to_string()));
    assert_eq!(run("拼音", "Pinyin", &[]), None);
    assert_eq!(run("拼音", "reverse", &[]), None);
}
