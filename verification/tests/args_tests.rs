use std::path::PathBuf;

use dmvop::args::{
    apply_config, fill_pattern, parse_output_mode, parse_post_spec, resolve_config_paths,
    resolve_format_pattern, run_post_process, DMVOPArguments, DMVOPConfig, OutputMode,
};
use dmvop::paths::resolve_config_path;

fn cli_defaults() -> DMVOPArguments {
    DMVOPArguments {
        help: false,
        instant: false,
        verbose: false,
        config: None,
        list_devices: false,
        list_models: false,
        download_model: None,
        lang: None,
        model: None,
        device_name: None,
        format_pattern: None,
        format_file: None,
        output: vec![],
        port: None,
        socket_file: None,
        models_dir: None,
        subnet_mask: None,
        post: None,
    }
}

#[test]
fn post_spec_with_arguments() {
    let (name, args) = parse_post_spec("+pinyin(tone)");
    assert_eq!(name, "pinyin");
    assert_eq!(args, vec!["tone"]);
}

#[test]
fn post_spec_trims_name_and_arguments() {
    let (name, args) = parse_post_spec("  + pinyin ( tone-num ,  x ) \t");
    assert_eq!(name, "pinyin");
    assert_eq!(args, vec!["tone-num", "x"]);
}

#[test]
fn post_spec_without_plus_is_all_name() {
    let (name, args) = parse_post_spec("  reverse(x) ");
    assert_eq!(name, "reverse(x)");
    assert!(args.is_empty());
}

#[test]
fn post_spec_without_parentheses_has_no_arguments() {
    let (name, args) = parse_post_spec("+reverse");
    assert_eq!(name, "reverse");
    assert!(args.is_empty());
}

#[test]
fn post_spec_empty_parentheses_have_no_arguments() {
    let (name, args) = parse_post_spec("+pinyin(  )");
    assert_eq!(name, "pinyin");
    assert!(args.is_empty());
}

#[test]
fn post_spec_unclosed_parenthesis_stays_in_name() {
    let (name, args) = parse_post_spec("+pinyin(tone");
    assert_eq!(name, "pinyin(tone");
    assert!(args.is_empty());
}

#[test]
fn post_spec_keeps_empty_arguments() {
    let (name, args) = parse_post_spec("+f(a,,b)");
    assert_eq!(name, "f");
    assert_eq!(args, vec!["a", "", "b"]);
}

#[test]
fn post_spec_unicode_white_space_is_trimmed() {
    let (name, args) = parse_post_spec("\u{3000}+pinyin(\u{00A0}tone\u{2003})\u{2028}");
    assert_eq!(name, "pinyin");
    assert_eq!(args, vec!["tone"]);
}

#[test]
fn post_spec_written_form_reads_back() {
    let (name, args) = parse_post_spec("+convert(first, se(co)nd, third)");
    assert_eq!(name, "convert");
    assert_eq!(args, vec!["first", "se(co)nd", "third"]);
}

#[test]
fn output_mode_ignores_case() {
    assert_eq!(parse_output_mode("TCP"), Ok(OutputMode::TCP));
    assert_eq!(parse_output_mode("udp"), Ok(OutputMode::UDP));
    assert_eq!(parse_output_mode("Udp-Broadcast"), Ok(OutputMode::UDP_BROADCAST));
    assert_eq!(parse_output_mode("IPC"), Ok(OutputMode::IPC));
    assert_eq!(parse_output_mode("StdOut"), Ok(OutputMode::STDOUT));
    assert_eq!(parse_output_mode("stderr"), Ok(OutputMode::STDERR));
}

#[test]
fn output_mode_from_str() {
    let m: OutputMode = "STDERR".parse().unwrap();
    assert_eq!(m, OutputMode::STDERR);
}

#[test]
fn output_mode_unknown_is_an_error() {
    assert_eq!(
        parse_output_mode("udp_broadcast"),
        Err("'udp_broadcast' is not a valid output mode. Valid modes: tcp, udp, udp-broadcast, ipc, stdout, stderr".to_string())
    );
    assert!(parse_output_mode(" tcp").is_err());
}

#[test]
fn config_fills_only_what_the_command_line_lacks() {
    let mut args = cli_defaults();
    args.lang = Some("en".to_string());
    args.model = Some("tiny".to_string());
    args.port = Some(7000);
    args.output = vec![OutputMode::STDOUT];
    args.device_name = Some("hw:1,0".to_string());
    let cfg = DMVOPConfig {
        instant: Some(true),
        lang: Some("zh".to_string()),
        model: Some("small".to_string()),
        device: Some("Mic".to_string()),
        format: Some("%{word}".to_string()),
        format_file: Some(PathBuf::from("/tmp/fmt.txt")),
        output: Some(vec!["tcp".to_string()]),
        port: Some(6000),
        socket_file: Some(PathBuf::from("/run/dmvop.sock")),
        models_dir: Some(PathBuf::from("/models")),
        subnet_mask: Some("255.255.0.0".to_string()),
        post: Some("+pinyin".to_string()),
    };
    apply_config(&mut args, &cfg);
    assert!(args.instant);
    assert_eq!(args.lang.as_deref(), Some("en"));
    assert_eq!(args.model.as_deref(), Some("tiny"));
    assert_eq!(args.device_name.as_deref(), Some("hw:1,0"));
    assert_eq!(args.format_pattern.as_deref(), Some("%{word}"));
    assert_eq!(args.format_file, Some(PathBuf::from("/tmp/fmt.txt")));
    assert_eq!(args.output, vec![OutputMode::STDOUT]);
    assert_eq!(args.port, Some(7000));
    assert_eq!(args.socket_file, Some(PathBuf::from("/run/dmvop.sock")));
    assert_eq!(args.models_dir, Some(PathBuf::from("/models")));
    assert_eq!(args.subnet_mask.as_deref(), Some("255.255.0.0"));
    assert_eq!(args.post.as_deref(), Some("+pinyin"));
}

#[test]
fn command_line_port_model_socket_and_mask_win() {
    let mut args = cli_defaults();
    args.model = Some("tiny".to_string());
    args.port = Some(7000);
    args.socket_file = Some(PathBuf::from("cli.sock"));
    args.subnet_mask = Some("255.0.0.0".to_string());
    let mut cfg = DMVOPConfig::default();
    cfg.model = Some("small".to_string());
    cfg.port = Some(6000);
    cfg.socket_file = Some(PathBuf::from("cfg.sock"));
    cfg.subnet_mask = Some("255.255.0.0".to_string());
    apply_config(&mut args, &cfg);
    assert_eq!(args.model_or_default(), "tiny");
    assert_eq!(args.port_or_default(), 7000);
    assert_eq!(args.socket_file_or_default(), PathBuf::from("cli.sock"));
    assert_eq!(args.subnet_mask_or_default(), "255.0.0.0");
}

#[test]
fn config_outputs_used_when_none_given() {
    let mut args = cli_defaults();
    args.format_file = Some(PathBuf::from("cli.txt"));
    args.post = Some("+reverse".to_string());
    let mut cfg = DMVOPConfig::default();
    cfg.output = Some(vec![
        "TCP".to_string(),
        "nonsense".to_string(),
        "udp-broadcast".to_string(),
    ]);
    cfg.device = Some("Mic".to_string());
    cfg.format = Some("%{word}".to_string());
    cfg.format_file = Some(PathBuf::from("cfg.txt"));
    cfg.post = Some("+pinyin".to_string());
    apply_config(&mut args, &cfg);
    assert_eq!(args.output, vec![OutputMode::TCP, OutputMode::UDP_BROADCAST]);
    assert_eq!(args.device_name.as_deref(), Some("Mic"));
    assert_eq!(args.format_pattern.as_deref(), Some("%{word}"));
    assert_eq!(args.format_file, Some(PathBuf::from("cli.txt")));
    assert_eq!(args.post.as_deref(), Some("+reverse"));
}

#[test]
fn defaults_apply_when_nothing_is_given() {
    let mut args = cli_defaults();
    apply_config(&mut args, &DMVOPConfig::default());
    assert!(!args.instant);
    assert_eq!(args.model_or_default(), "base_en");
    assert_eq!(args.device_or_default(), "auto");
    assert_eq!(args.output_or_default(), vec![OutputMode::STDOUT]);
    assert_eq!(args.port_or_default(), 5117);
    assert_eq!(args.socket_file_or_default(), PathBuf::from("./dmvop.sock"));
    assert_eq!(args.subnet_mask_or_default(), "255.255.255.0");
}

#[test]
fn config_values_apply_when_command_line_is_silent() {
    let mut args = cli_defaults();
    let mut cfg = DMVOPConfig::default();
    cfg.model = Some("small".to_string());
    cfg.port = Some(6000);
    cfg.socket_file = Some(PathBuf::from("/run/dmvop.sock"));
    cfg.subnet_mask = Some("255.255.0.0".to_string());
    apply_config(&mut args, &cfg);
    assert_eq!(args.model_or_default(), "small");
    assert_eq!(args.port_or_default(), 6000);
    assert_eq!(args.socket_file_or_default(), PathBuf::from("/run/dmvop.sock"));
    assert_eq!(args.subnet_mask_or_default(), "255.255.0.0");
}

#[test]
fn instant_from_config_does_not_turn_off_the_flag() {
    let mut args = cli_defaults();
    args.instant = true;
    let mut cfg = DMVOPConfig::default();
    cfg.instant = Some(false);
    apply_config(&mut args, &cfg);
    assert!(args.instant);
}

#[test]
fn config_paths_resolve_against_the_config_directory() {
    let config_file = PathBuf::from("/etc/dmvop/dmvop.toml");
    assert_eq!(
        resolve_config_path(&config_file, &PathBuf::from("fmt.txt")),
        PathBuf::from("/etc/dmvop/fmt.txt")
    );
    assert_eq!(
        resolve_config_path(&config_file, &PathBuf::from("/abs/fmt.txt")),
        PathBuf::from("/abs/fmt.txt")
    );
    assert_eq!(
        resolve_config_path(&PathBuf::from("dmvop.toml"), &PathBuf::from("m")),
        PathBuf::from("m")
    );
    let mut cfg = DMVOPConfig::default();
    cfg.format_file = Some(PathBuf::from("fmt.txt"));
    cfg.socket_file = Some(PathBuf::from("s.sock"));
    cfg.models_dir = Some(PathBuf::from("models"));
    cfg.port = Some(1);
    resolve_config_paths(&mut cfg, &config_file);
    assert_eq!(cfg.format_file, Some(PathBuf::from("/etc/dmvop/fmt.txt")));
    assert_eq!(cfg.socket_file, Some(PathBuf::from("/etc/dmvop/s.sock")));
    assert_eq!(cfg.models_dir, Some(PathBuf::from("/etc/dmvop/models")));
    assert_eq!(cfg.port, Some(1));
    assert_eq!(
        resolve_config_path(&config_file, &PathBuf::from("models")),
        PathBuf::from("/etc/dmvop/models")
    );
    assert_eq!(
        resolve_config_path(&config_file, &PathBuf::from("/opt/m")),
        PathBuf::from("/opt/m")
    );
}

#[test]
fn pattern_placeholders_are_filled() {
    assert_eq!(fill_pattern("%{vol},%{word},%{confid}", 80, "hello", "95.0"), "80,hello,95.0");
}

#[test]
fn pattern_without_volume() {
    assert_eq!(fill_pattern("text: %{word}", 0, "world", "0.0"), "text: world");
}

#[test]
fn pattern_long_confidence_placeholder() {
    assert_eq!(
        fill_pattern("[%{confidence}|%{vol}|%{vol}]", 100, "x", "12.5"),
        "[12.5|100|100]"
    );
}

#[test]
fn pattern_words_are_filled_before_confidence() {
    assert_eq!(fill_pattern("%{word}", 7, "say %{confid}", "1.0"), "say 1.0");
    assert_eq!(fill_pattern("%{word}", 7, "say %{vol}", "1.0"), "say %{vol}");
}

#[test]
fn format_file_wins_when_not_blank() {
    assert_eq!(
        resolve_format_pattern(Some("%{word}"), Some("  %{vol}:%{word}\n")),
        ("%{vol}:%{word}".to_string(), true)
    );
    assert_eq!(
        resolve_format_pattern(Some("%{word}"), Some(" \n\t")),
        ("%{word}".to_string(), false)
    );
    assert_eq!(
        resolve_format_pattern(Some(""), None),
        ("%{vol},%{word}".to_string(), false)
    );
    assert_eq!(resolve_format_pattern(None, None), ("%{vol},%{word}".to_string(), false));
}

#[test]
fn post_process_without_spec_keeps_text() {
    assert_eq!(run_post_process("你好", None), Ok("你好".to_string()));
}

#[test]
fn post_process_runs_pinyin() {
    assert_eq!(run_post_process("拼音", Some("+pinyin")), Ok("pin yin".to_string()));
    assert_eq!(run_post_process("拼音", Some("+pinyin(tone)")), Ok("pīn yīn".to_string()));
}

#[test]
fn post_process_unknown_processor() {
    assert_eq!(run_post_process("abc", Some("+reverse()")), Err("reverse".to_string()));
}

#[test]
fn pattern_without_placeholders_is_unchanged() {
    assert_eq!(fill_pattern("plain text {vol}", 50, "w", "1.0"), "plain text {vol}");
}
