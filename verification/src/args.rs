//! Command-line arguments, the configuration file's values, their merge, and
//! the post-processing spec parser.

use std::path::PathBuf;
use vstd::prelude::*;

use crate::output::{lemma_decimal_reads_back, u32_of};
use crate::paths::{path_from_str, path_of, resolve_config_path, resolved_config_path};
use crate::post_proc::{run, run_result};
use crate::text::{
    chars_of,
    decimal,
    decimal_string,
    find_char,
    index_of_char,
    is_trimmed,
    join_with,
    lacks,
    lemma_replace_absent,
    lemma_replace_whole,
    lemma_index_of_char,
    lemma_split_after_sep,
    lemma_split_single,
    lemma_trim_space_before,
    lemma_trim_trimmed,
    lowercase,
    replace_all,
    replace_str,
    split_on,
    split_str,
    str_eq,
    to_lowercase,
    trim,
    trim_str,
};

verus! {

/// Where transcribed text is sent.
#[derive(Clone, Copy, Debug, PartialEq, Eq, Structural)]
#[allow(non_camel_case_types)]
pub enum OutputMode {
    /// Establish a basic TCP service, broadcasting output to all connected sockets
    TCP,
    /// Establish a basic UDP service, broadcasting output to all connected sockets
    UDP,
    /// Broadcast output via UDP broadcast
    UDP_BROADCAST,
    /// Send signal to specified IPC socket
    IPC,
    /// Write directly to stdout
    STDOUT,
    /// Write directly to stderr
    STDERR,
}

/// The mode a lower-case keyword names.
pub open spec fn mode_named(k: Seq<char>) -> Option<OutputMode> {
    if k == "tcp"@ {
        Some(OutputMode::TCP)
    } else if k == "udp"@ {
        Some(OutputMode::UDP)
    } else if k == "udp-broadcast"@ {
        Some(OutputMode::UDP_BROADCAST)
    } else if k == "ipc"@ {
        Some(OutputMode::IPC)
    } else if k == "stdout"@ {
        Some(OutputMode::STDOUT)
    } else if k == "stderr"@ {
        Some(OutputMode::STDERR)
    } else {
        None
    }
}

/// The mode that a command-line or configuration value names, whatever its
/// letter case.
pub open spec fn mode_of(s: Seq<char>) -> Option<OutputMode> {
    mode_named(lowercase(s))
}

/// The message given for a value that names no mode.
pub open spec fn invalid_mode_message(s: Seq<char>) -> Seq<char> {
    "'"@ + s + "' is not a valid output mode. Valid modes: tcp, udp, udp-broadcast, ipc, stdout, stderr"@
}

/// Parses an output mode, ignoring letter case: `tcp`, `udp`,
/// `udp-broadcast`, `ipc`, `stdout` or `stderr`.
pub fn parse_output_mode(s: &str) -> (r: Result<OutputMode, String>)
    ensures
        mode_of(s@) matches Some(m) ==> r == Ok::<OutputMode, String>(m),
        mode_of(s@) is None ==> (r matches Err(e) && e@ == invalid_mode_message(s@)),
{
    let lower = to_lowercase(s);
    let k = lower.as_str();
    if str_eq(k, "tcp") {
        Ok(OutputMode::TCP)
    } else if str_eq(k, "udp") {
        Ok(OutputMode::UDP)
    } else if str_eq(k, "udp-broadcast") {
        Ok(OutputMode::UDP_BROADCAST)
    } else if str_eq(k, "ipc") {
        Ok(OutputMode::IPC)
    } else if str_eq(k, "stdout") {
        Ok(OutputMode::STDOUT)
    } else if str_eq(k, "stderr") {
        Ok(OutputMode::STDERR)
    } else {
        let mut message = String::new();
        message.append("'");
        message.append(s);
        message.append(
            "' is not a valid output mode. Valid modes: tcp, udp, udp-broadcast, ipc, stdout, stderr",
        );
        Err(message)
    }
}

impl std::str::FromStr for OutputMode {
    type Err = String;

    fn from_str(s: &str) -> (r: Result<OutputMode, String>)
        ensures
            mode_of(s@) matches Some(m) ==> r == Ok::<OutputMode, String>(m),
            mode_of(s@) is None ==> (r matches Err(e) && e@ == invalid_mode_message(s@)),
    {
        parse_output_mode(s)
    }
}

/// Letter case does not matter to which mode a value names.
pub proof fn law_mode_ignores_case(a: Seq<char>, b: Seq<char>)
    requires
        lowercase(a) == lowercase(b),
    ensures
        mode_of(a) == mode_of(b),
{
}

/// The name part of a post-processing spec `+name(arg1, arg2, ...)`.
pub open spec fn post_spec_name(spec: Seq<char>) -> Seq<char> {
    let t = trim(spec);
    if !(t.len() > 0 && t[0] == '+') {
        t
    } else {
        let inner = t.drop_first();
        match index_of_char(inner, '(') {
            Some(p) => if inner.len() > 0 && inner.last() == ')' {
                trim(inner.subrange(0, p))
            } else {
                trim(inner)
            },
            None => trim(inner),
        }
    }
}

/// The text between the parentheses of a `+name(...)` spec, when it has them.
pub open spec fn post_spec_arg_text(spec: Seq<char>) -> Option<Seq<char>> {
    let t = trim(spec);
    if !(t.len() > 0 && t[0] == '+') {
        None
    } else {
        let inner = t.drop_first();
        match index_of_char(inner, '(') {
            Some(p) => if inner.len() > 0 && inner.last() == ')' {
                Some(trim(inner.subrange(p + 1, inner.len() - 1)))
            } else {
                None
            },
            None => None,
        }
    }
}

/// The arguments of a post-processing spec: the comma-separated pieces
/// between the parentheses, each trimmed; none when the parentheses are
/// missing or hold only white space.
pub open spec fn post_spec_args(spec: Seq<char>) -> Seq<Seq<char>> {
    match post_spec_arg_text(spec) {
        Some(a) => if a.len() == 0 {
            Seq::empty()
        } else {
            split_on(a, ',').map_values(|piece: Seq<char>| trim(piece))
        },
        None => Seq::empty(),
    }
}

/// Trims every piece.
fn trim_all<'a>(pieces: &Vec<&'a str>) -> (r: Vec<&'a str>)
    ensures
        r@.map_values(|p: &str| p@) == pieces@.map_values(|p: &str| p@).map_values(
            |q: Seq<char>| trim(q),
        ),
{
    let mut r: Vec<&'a str> = Vec::new();
    let mut i: usize = 0;
    while i < pieces.len()
        invariant
            i <= pieces.len(),
            r@.len() == i,
            forall|k: int| 0 <= k < i ==> #[trigger] r@[k]@ == trim(pieces@[k]@),
        decreases pieces.len() - i,
    {
        let t = trim_str(pieces[i]);
        r.push(t);
        i = i + 1;
    }
    assert(r@.map_values(|p: &str| p@) =~= pieces@.map_values(|p: &str| p@).map_values(
        |q: Seq<char>| trim(q),
    ));
    r
}

/// Parses a post-processor spec in the form `+function_name(arg1, arg2, ...)`
/// and returns `(name, args)`. A spec without a leading `+` is all name; a
/// spec without a closing parenthesised argument list has no arguments.
pub fn parse_post_spec(spec: &str) -> (r: (&str, Vec<&str>))
    ensures
        r.0@ == post_spec_name(spec@),
        r.1@.map_values(|a: &str| a@) == post_spec_args(spec@),
{
    let t = trim_str(spec);
    let cs = chars_of(t);
    if !(cs.len() > 0 && cs[0] == '+') {
        let none: Vec<&str> = Vec::new();
        assert(none@.map_values(|a: &str| a@) =~= Seq::<Seq<char>>::empty());
        return (t, none);
    }
    let n = cs.len();
    let inner = t.substring_char(1, n);
    assert(inner@ =~= trim(spec@).drop_first());
    let ics = chars_of(inner);
    let m = ics.len();
    match find_char(&ics, '(') {
        Some(p) => {
            if ics[m - 1] == ')' {
                proof {
                    lemma_index_of_char(inner@, '(');
                }
                let name = trim_str(inner.substring_char(0, p));
                let args_text = trim_str(inner.substring_char(p + 1, m - 1));
                if args_text.unicode_len() == 0 {
                    let none: Vec<&str> = Vec::new();
                    assert(none@.map_values(|a: &str| a@) =~= Seq::<Seq<char>>::empty());
                    return (name, none);
                }
                let pieces = split_str(args_text, ',');
                let args = trim_all(&pieces);
                return (name, args);
            }
        },
        None => {},
    }
    let none: Vec<&str> = Vec::new();
    assert(none@.map_values(|a: &str| a@) =~= Seq::<Seq<char>>::empty());
    (trim_str(inner), none)
}


/// The command-line arguments, after parsing. A value the user did not give
/// is absent (an empty `output`, `false` for a flag); the defaults are
/// applied by the `*_or_default` methods, after the configuration file has
/// been merged in.
pub struct DMVOPArguments {
    /// Show help
    pub help: bool,
    /// Instant mode: aggressive VAD for near-real-time output
    pub instant: bool,
    /// Verbose output (show debug messages)
    pub verbose: bool,
    /// Config file path
    pub config: Option<PathBuf>,
    /// List all available input devices and exit
    pub list_devices: bool,
    /// List all available Whisper models and exit
    pub list_models: bool,
    /// Download a specific Whisper model and exit
    pub download_model: Option<String>,
    /// Language hint for Whisper (e.g. en, zh, ja); auto-detected if not set
    pub lang: Option<String>,
    /// Whisper model to use (e.g. tiny, base, small, medium, large-v3);
    /// `base_en` when not given
    pub model: Option<String>,
    /// Input device (unix/linux device or WASAPI name); `auto` when not given
    pub device_name: Option<String>,
    /// Output format; `%{vol}`, `%{word}` and `%{confid}` stand for the
    /// volume (0-100), the words and the confidence; `%{vol},%{word}` when
    /// not given
    pub format_pattern: Option<String>,
    /// File holding the output format
    pub format_file: Option<PathBuf>,
    /// Outputs (can be given several times); stdout when none is given
    pub output: Vec<OutputMode>,
    /// Port; 5117 when not given
    pub port: Option<u16>,
    /// Socket file; `./dmvop.sock` when not given
    pub socket_file: Option<PathBuf>,
    /// Custom directory for model files
    pub models_dir: Option<PathBuf>,
    /// Subnet mask for UDP broadcast; `255.255.255.0` when not given
    pub subnet_mask: Option<String>,
    /// Post-processing pipeline, e.g. `+pinyin()`
    pub post: Option<String>,
}

/// The configuration file's values. Every field is optional so that the
/// merge can tell what the file sets.
pub struct DMVOPConfig {
    pub instant: Option<bool>,
    pub lang: Option<String>,
    pub model: Option<String>,
    pub device: Option<String>,
    pub format: Option<String>,
    pub format_file: Option<PathBuf>,
    pub output: Option<Vec<String>>,
    pub port: Option<u16>,
    pub socket_file: Option<PathBuf>,
    pub models_dir: Option<PathBuf>,
    pub subnet_mask: Option<String>,
    pub post: Option<String>,
}

impl Default for DMVOPConfig {
    fn default() -> (r: DMVOPConfig)
        ensures
            r.instant is None,
            r.lang is None,
            r.model is None,
            r.device is None,
            r.format is None,
            r.format_file is None,
            r.output is None,
            r.port is None,
            r.socket_file is None,
            r.models_dir is None,
            r.subnet_mask is None,
            r.post is None,
    {
        DMVOPConfig {
            instant: None,
            lang: None,
            model: None,
            device: None,
            format: None,
            format_file: None,
            output: None,
            port: None,
            socket_file: None,
            models_dir: None,
            subnet_mask: None,
            post: None,
        }
    }
}

/// The characters of an optional string.
pub open spec fn opt_text(o: Option<String>) -> Option<Seq<char>> {
    match o {
        Some(s) => Some(s@),
        None => None,
    }
}

/// A value given on the command line if there is one, else the file's.
pub open spec fn prefer_first<T>(cli: Option<T>, file: Option<T>) -> Option<T> {
    match cli {
        Some(v) => Some(v),
        None => file,
    }
}

/// The modes that the values name, in order, skipping values that name none.
pub open spec fn modes_named(values: Seq<Seq<char>>) -> Seq<OutputMode>
    decreases values.len(),
{
    if values.len() == 0 {
        Seq::empty()
    } else {
        let rest = modes_named(values.drop_last());
        match mode_of(values.last()) {
            Some(m) => rest.push(m),
            None => rest,
        }
    }
}

/// The modes that `values` name, skipping those that name none.
pub fn parse_modes(values: &Vec<String>) -> (r: Vec<OutputMode>)
    ensures
        r@ == modes_named(values.deep_view()),
{
    let mut r: Vec<OutputMode> = Vec::new();
    let mut i: usize = 0;
    while i < values.len()
        invariant
            i <= values.len(),
            r@ == modes_named(values.deep_view().take(i as int)),
        decreases values.len() - i,
    {
        assert(values.deep_view().take(i + 1).drop_last() =~= values.deep_view().take(i as int));
        match parse_output_mode(values[i].as_str()) {
            Ok(m) => r.push(m),
            Err(_) => {},
        }
        i = i + 1;
    }
    assert(values.deep_view().take(values.len() as int) =~= values.deep_view());
    r
}

/// Fills an absent text argument from the file.
fn fill_text(slot: &mut Option<String>, file: &Option<String>)
    ensures
        opt_text(*final(slot)) == prefer_first(opt_text(*old(slot)), opt_text(*file)),
{
    if let Some(v) = file {
        if slot.is_none() {
            *slot = Some(v.clone());
        }
    }
}

/// Fills an absent path argument from the file.
fn fill_path(slot: &mut Option<PathBuf>, file: &Option<PathBuf>)
    ensures
        *final(slot) == prefer_first(*old(slot), *file),
{
    if let Some(v) = file {
        if slot.is_none() {
            *slot = Some(v.clone());
        }
    }
}

/// Merges the configuration file's values into the command-line arguments
/// (the command line wins): the file only fills what the command line left
/// absent (`instant` when off, `output` when empty). The output modes from
/// the file are those of its values that name a mode.
pub fn apply_config(args: &mut DMVOPArguments, cfg: &DMVOPConfig)
    ensures
        final(args).instant == (old(args).instant || cfg.instant == Some(true)),
        opt_text(final(args).lang) == prefer_first(opt_text(old(args).lang), opt_text(cfg.lang)),
        opt_text(final(args).model) == prefer_first(opt_text(old(args).model), opt_text(cfg.model)),
        opt_text(final(args).device_name) == prefer_first(
            opt_text(old(args).device_name),
            opt_text(cfg.device),
        ),
        opt_text(final(args).format_pattern) == prefer_first(
            opt_text(old(args).format_pattern),
            opt_text(cfg.format),
        ),
        final(args).format_file == prefer_first(old(args).format_file, cfg.format_file),
        final(args).output@ == (if old(args).output@.len() == 0 && cfg.output is Some {
            modes_named(cfg.output.unwrap().deep_view())
        } else {
            old(args).output@
        }),
        final(args).port == prefer_first(old(args).port, cfg.port),
        final(args).socket_file == prefer_first(old(args).socket_file, cfg.socket_file),
        final(args).models_dir == prefer_first(old(args).models_dir, cfg.models_dir),
        opt_text(final(args).subnet_mask) == prefer_first(
            opt_text(old(args).subnet_mask),
            opt_text(cfg.subnet_mask),
        ),
        opt_text(final(args).post) == prefer_first(opt_text(old(args).post), opt_text(cfg.post)),
        final(args).help == old(args).help,
        final(args).verbose == old(args).verbose,
        final(args).config == old(args).config,
        final(args).list_devices == old(args).list_devices,
        final(args).list_models == old(args).list_models,
        final(args).download_model == old(args).download_model,
{
    if let Some(v) = cfg.instant {
        if !args.instant {
            args.instant = v;
        }
    }
    fill_text(&mut args.lang, &cfg.lang);
    fill_text(&mut args.model, &cfg.model);
    fill_text(&mut args.device_name, &cfg.device);
    fill_text(&mut args.format_pattern, &cfg.format);
    fill_path(&mut args.format_file, &cfg.format_file);
    if let Some(v) = &cfg.output {
        if args.output.len() == 0 {
            args.output = parse_modes(v);
        }
    }
    if let Some(v) = cfg.port {
        if args.port.is_none() {
            args.port = Some(v);
        }
    }
    fill_path(&mut args.socket_file, &cfg.socket_file);
    fill_path(&mut args.models_dir, &cfg.models_dir);
    fill_text(&mut args.subnet_mask, &cfg.subnet_mask);
    fill_text(&mut args.post, &cfg.post);
}


/// The Whisper model used when none is given.
pub open spec fn default_model() -> Seq<char> {
    "base_en"@
}

/// The input device used when none is given: the system default.
pub open spec fn default_device() -> Seq<char> {
    "auto"@
}

/// The port used when none is given.
pub open spec fn default_port() -> u16 {
    5117
}

/// The IPC socket file used when none is given.
pub open spec fn default_socket_file() -> Seq<char> {
    "./dmvop.sock"@
}

/// The UDP broadcast subnet mask used when none is given.
pub open spec fn default_subnet_mask() -> Seq<char> {
    "255.255.255.0"@
}

/// A text value, or the default when it is absent.
pub open spec fn text_or(o: Option<String>, default: Seq<char>) -> Seq<char> {
    match o {
        Some(s) => s@,
        None => default,
    }
}

impl DMVOPArguments {
    /// The Whisper model: the one given, else `base_en`.
    pub fn model_or_default(&self) -> (r: &str)
        ensures
            r@ == text_or(self.model, default_model()),
    {
        match &self.model {
            Some(m) => m.as_str(),
            None => "base_en",
        }
    }

    /// The input device: the one given, else `auto`.
    pub fn device_or_default(&self) -> (r: &str)
        ensures
            r@ == text_or(self.device_name, default_device()),
    {
        match &self.device_name {
            Some(d) => d.as_str(),
            None => "auto",
        }
    }

    /// The outputs: those given, else stdout alone.
    pub fn output_or_default(&self) -> (r: Vec<OutputMode>)
        ensures
            r@ == (if self.output@.len() == 0 {
                seq![OutputMode::STDOUT]
            } else {
                self.output@
            }),
    {
        let mut r: Vec<OutputMode> = Vec::new();
        if self.output.len() == 0 {
            r.push(OutputMode::STDOUT);
            return r;
        }
        let mut i: usize = 0;
        while i < self.output.len()
            invariant
                i <= self.output.len(),
                r@ == self.output@.take(i as int),
            decreases self.output.len() - i,
        {
            r.push(self.output[i]);
            i = i + 1;
            assert(r@ =~= self.output@.take(i as int));
        }
        assert(self.output@.take(self.output.len() as int) =~= self.output@);
        r
    }

    /// The port: the one given, else 5117.
    pub fn port_or_default(&self) -> (r: u16)
        ensures
            r == match self.port {
                Some(p) => p,
                None => default_port(),
            },
    {
        match self.port {
            Some(p) => p,
            None => 5117,
        }
    }

    /// The IPC socket file: the one given, else `./dmvop.sock`.
    pub fn socket_file_or_default(&self) -> (r: PathBuf)
        ensures
            r == match self.socket_file {
                Some(f) => f,
                None => path_of(default_socket_file()),
            },
    {
        match &self.socket_file {
            Some(f) => f.clone(),
            None => path_from_str("./dmvop.sock"),
        }
    }

    /// The UDP broadcast subnet mask: the one given, else `255.255.255.0`.
    pub fn subnet_mask_or_default(&self) -> (r: &str)
        ensures
            r@ == text_or(self.subnet_mask, default_subnet_mask()),
    {
        match &self.subnet_mask {
            Some(m) => m.as_str(),
            None => "255.255.255.0",
        }
    }
}

/// An optional path from the configuration file, resolved against the file.
pub open spec fn resolved_opt(config_file: PathBuf, path: Option<PathBuf>) -> Option<PathBuf> {
    match path {
        Some(p) => Some(resolved_config_path(config_file, p)),
        None => None,
    }
}

/// Resolves the paths that the configuration file `config_file` holds
/// (`format_file`, `models_dir`, `socket_file`) relative to that file's
/// directory; every other value stays as the file gave it.
pub fn resolve_config_paths(cfg: &mut DMVOPConfig, config_file: &PathBuf)
    ensures
        final(cfg).format_file == resolved_opt(*config_file, old(cfg).format_file),
        final(cfg).models_dir == resolved_opt(*config_file, old(cfg).models_dir),
        final(cfg).socket_file == resolved_opt(*config_file, old(cfg).socket_file),
        final(cfg).instant == old(cfg).instant,
        final(cfg).lang == old(cfg).lang,
        final(cfg).model == old(cfg).model,
        final(cfg).device == old(cfg).device,
        final(cfg).format == old(cfg).format,
        final(cfg).output == old(cfg).output,
        final(cfg).port == old(cfg).port,
        final(cfg).subnet_mask == old(cfg).subnet_mask,
        final(cfg).post == old(cfg).post,
{
    if let Some(f) = &cfg.format_file {
        let resolved = resolve_config_path(config_file, f);
        cfg.format_file = Some(resolved);
    }
    if let Some(d) = &cfg.models_dir {
        let resolved = resolve_config_path(config_file, d);
        cfg.models_dir = Some(resolved);
    }
    if let Some(s) = &cfg.socket_file {
        let resolved = resolve_config_path(config_file, s);
        cfg.socket_file = Some(resolved);
    }
}


/// The pattern with its placeholders filled: `%{vol}` by the volume's
/// decimal numeral, `%{word}` by the words, `%{confid}` and `%{confidence}`
/// by the confidence text, replaced in that order.
pub open spec fn filled_pattern(
    pattern: Seq<char>,
    volume: nat,
    word: Seq<char>,
    confidence: Seq<char>,
) -> Seq<char> {
    let with_vol = replace_all(pattern, "%{vol}"@, decimal(volume));
    let with_word = replace_all(with_vol, "%{word}"@, word);
    let with_confid = replace_all(with_word, "%{confid}"@, confidence);
    replace_all(with_confid, "%{confidence}"@, confidence)
}

/// Fills the placeholders of an output pattern: `%{vol}` with the volume on
/// the 0-100 scale, `%{word}` with the transcribed words, `%{confid}` and
/// `%{confidence}` with the confidence as already written out.
pub fn fill_pattern(pattern: &str, volume: u32, word: &str, confidence: &str) -> (r: String)
    ensures
        r@ == filled_pattern(pattern@, volume as nat, word@, confidence@),
{
    proof {
        reveal_strlit("%{vol}");
        reveal_strlit("%{word}");
        reveal_strlit("%{confid}");
        reveal_strlit("%{confidence}");
    }
    let vol = decimal_string(volume);
    let r = replace_str(pattern, "%{vol}", vol.as_str());
    let r = replace_str(r.as_str(), "%{word}", word);
    let r = replace_str(r.as_str(), "%{confid}", confidence);
    replace_str(r.as_str(), "%{confidence}", confidence)
}

/// A pattern without any `%` has no placeholders: filling it gives it back
/// unchanged, whatever the volume, words and confidence.
pub proof fn law_pattern_without_placeholders(
    pattern: Seq<char>,
    volume: nat,
    word: Seq<char>,
    confidence: Seq<char>,
)
    requires
        lacks(pattern, '%'),
    ensures
        filled_pattern(pattern, volume, word, confidence) == pattern,
{
    reveal_strlit("%{vol}");
    reveal_strlit("%{word}");
    reveal_strlit("%{confid}");
    reveal_strlit("%{confidence}");
    lemma_replace_absent(pattern, "%{vol}"@, decimal(volume));
    lemma_replace_absent(pattern, "%{word}"@, word);
    lemma_replace_absent(pattern, "%{confid}"@, confidence);
    lemma_replace_absent(pattern, "%{confidence}"@, confidence);
}

/// The volume placeholder is replaced by the volume's decimal numeral for
/// every volume, zero included: filling `%{vol}` alone gives text that reads
/// back as the volume, whatever the words and the confidence.
pub proof fn law_volume_reads_back(volume: u32, word: Seq<char>, confidence: Seq<char>)
    ensures
        u32_of(filled_pattern("%{vol}"@, volume as nat, word, confidence)) == Some(volume),
{
    reveal_strlit("%{vol}");
    reveal_strlit("%{word}");
    reveal_strlit("%{confid}");
    reveal_strlit("%{confidence}");
    let d = decimal(volume as nat);
    lemma_replace_whole("%{vol}"@, d);
    lemma_decimal_reads_back(volume);
    lemma_replace_absent(d, "%{word}"@, word);
    lemma_replace_absent(d, "%{confid}"@, confidence);
    lemma_replace_absent(d, "%{confidence}"@, confidence);
}

/// The output pattern used when neither the command line nor a file gives one.
pub open spec fn default_pattern() -> Seq<char> {
    "%{vol},%{word}"@
}

/// The output pattern in force: the format file's content, trimmed, when it
/// was read and is not blank; else the `--format` value when not empty; else
/// the default pattern.
pub open spec fn chosen_pattern(pattern: Option<Seq<char>>, file_content: Option<Seq<char>>) -> Seq<
    char,
> {
    if file_content is Some && trim(file_content.unwrap()).len() > 0 {
        trim(file_content.unwrap())
    } else if pattern is Some && pattern.unwrap().len() > 0 {
        pattern.unwrap()
    } else {
        default_pattern()
    }
}

/// The characters of an optional string slice.
pub open spec fn opt_str(o: Option<&str>) -> Option<Seq<char>> {
    match o {
        Some(s) => Some(s@),
        None => None,
    }
}

/// Resolves the output pattern from the `--format` value and the content of
/// the `--format-file` file, when it could be read. Also tells whether the
/// file's content was used.
pub fn resolve_format_pattern(pattern: Option<&str>, file_content: Option<&str>) -> (r: (
    String,
    bool,
))
    ensures
        r.0@ == chosen_pattern(opt_str(pattern), opt_str(file_content)),
        r.1 == (file_content is Some && trim(file_content.unwrap()@).len() > 0),
{
    if let Some(content) = file_content {
        let trimmed = trim_str(content);
        if trimmed.unicode_len() > 0 {
            return (String::from_str(trimmed), true);
        }
    }
    if let Some(p) = pattern {
        if p.unicode_len() > 0 {
            return (String::from_str(p), false);
        }
    }
    (String::from_str("%{vol},%{word}"), false)
}

/// A format file whose content is not blank gives the pattern, trimmed,
/// whatever `--format` says.
pub proof fn law_format_file_wins(pattern: Option<Seq<char>>, content: Seq<char>)
    requires
        trim(content).len() > 0,
    ensures
        chosen_pattern(pattern, Some(content)) == trim(content),
{
}

/// Without a format file, or with a blank one, a non-empty `--format` value
/// is the pattern.
pub proof fn law_format_argument_without_file(pattern: Seq<char>, content: Option<Seq<char>>)
    requires
        pattern.len() > 0,
        content is None || trim(content.unwrap()).len() == 0,
    ensures
        chosen_pattern(Some(pattern), content) == pattern,
{
}

/// With neither a non-blank format file nor a non-empty `--format` value,
/// the pattern is `%{vol},%{word}`.
pub proof fn law_format_default(pattern: Option<Seq<char>>, content: Option<Seq<char>>)
    requires
        pattern is None || pattern.unwrap().len() == 0,
        content is None || trim(content.unwrap()).len() == 0,
    ensures
        chosen_pattern(pattern, content) == "%{vol},%{word}"@,
{
}

/// What running the post-processing spec on `text` gives: `Ok` with the
/// text unchanged when there is no spec, `Ok` with the processor's output
/// when the spec names a known processor, and `Err` with the name otherwise.
pub open spec fn post_processed(text: Seq<char>, spec: Option<Seq<char>>) -> Result<
    Seq<char>,
    Seq<char>,
> {
    match spec {
        None => Ok(text),
        Some(s) => match run_result(text, post_spec_name(s), post_spec_args(s)) {
            Some(out) => Ok(out),
            None => Err(post_spec_name(s)),
        },
    }
}

/// Runs the post-processing pipeline `spec` on `text`. Without a spec the
/// text comes back unchanged; a spec naming no known processor gives that
/// name as the error.
pub fn run_post_process(text: &str, spec: Option<&str>) -> (r: Result<String, String>)
    ensures
        match r {
            Ok(out) => post_processed(text@, opt_str(spec)) == Ok::<Seq<char>, Seq<char>>(out@),
            Err(name) => post_processed(text@, opt_str(spec)) == Err::<Seq<char>, Seq<char>>(
                name@,
            ),
        },
{
    match spec {
        None => Ok(String::from_str(text)),
        Some(s) => {
            let (name, args) = parse_post_spec(s);
            match run(text, name, args.as_slice()) {
                Some(out) => Ok(out),
                None => Err(String::from_str(name)),
            }
        },
    }
}


/// The separator between arguments in the written form: a comma and a space.
pub open spec fn arg_separator() -> Seq<char> {
    seq![',', ' ']
}

/// A post-processing spec written in its documented form:
/// `+name(arg1, arg2, ...)`.
pub open spec fn written_post_spec(name: Seq<char>, args: Seq<Seq<char>>) -> Seq<char> {
    seq!['+'] + name + seq!['('] + join_with(args, arg_separator()) + seq![')']
}

/// Arguments that the written form carries unchanged: non-empty, no white
/// space at their ends, no commas.
pub open spec fn plain_args(args: Seq<Seq<char>>) -> bool {
    forall|i: int|
        0 <= i < args.len() ==> #[trigger] args[i].len() > 0 && is_trimmed(args[i]) && lacks(
            args[i],
            ',',
        )
}

proof fn lemma_join_ends(args: Seq<Seq<char>>)
    requires
        args.len() > 0,
        plain_args(args),
    ensures
        join_with(args, arg_separator()).len() > 0,
        join_with(args, arg_separator())[0] == args[0][0],
        join_with(args, arg_separator()).last() == args.last().last(),
    decreases args.len(),
{
    if args.len() > 1 {
        let front = args.drop_last();
        assert(plain_args(front)) by {
            assert forall|i: int| 0 <= i < front.len() implies #[trigger] front[i].len() > 0
                && is_trimmed(front[i]) && lacks(front[i], ',') by {
                assert(front[i] == args[i]);
            }
        }
        lemma_join_ends(front);
        assert(args.last().len() > 0);
    } else {
        assert(args[0].len() > 0);
    }
}

proof fn lemma_join_split(args: Seq<Seq<char>>)
    requires
        args.len() > 0,
        plain_args(args),
    ensures
        split_on(join_with(args, arg_separator()), ',').len() == args.len(),
        split_on(join_with(args, arg_separator()), ',')[0] == args[0],
        forall|i: int|
            1 <= i < args.len() ==> #[trigger] split_on(join_with(args, arg_separator()), ',')[i]
                == seq![' '] + args[i],
    decreases args.len(),
{
    let sep = arg_separator();
    if args.len() == 1 {
        assert(args[0].len() > 0);
        lemma_split_single(args[0], ',');
    } else {
        let front = args.drop_last();
        assert(plain_args(front)) by {
            assert forall|i: int| 0 <= i < front.len() implies #[trigger] front[i].len() > 0
                && is_trimmed(front[i]) && lacks(front[i], ',') by {
                assert(front[i] == args[i]);
            }
        }
        lemma_join_split(front);
        let last = args.last();
        assert(args[args.len() - 1].len() > 0);
        let tail = seq![' '] + last;
        assert(lacks(tail, ',')) by {
            assert forall|i: int| 0 <= i < tail.len() implies tail[i] != ',' by {
                if i > 0 {
                    assert(tail[i] == last[i - 1]);
                }
            }
        }
        let jf = join_with(front, sep);
        assert(join_with(args, sep) =~= jf + seq![','] + tail);
        lemma_split_after_sep(jf, tail, ',');
        assert forall|i: int| 1 <= i < args.len() implies #[trigger] split_on(
            join_with(args, sep),
            ',',
        )[i] == seq![' '] + args[i] by {
            if i < args.len() - 1 {
                assert(split_on(jf, ',')[i] == seq![' '] + front[i]);
            }
        }
    }
}

/// A spec written as `+name(arg1, arg2, ...)` parses back into its name and
/// arguments, when the name has no white space at its ends and no `(`, and
/// every argument is non-empty, has no white space at its ends and no comma.
pub proof fn law_post_spec_roundtrip(name: Seq<char>, args: Seq<Seq<char>>)
    requires
        is_trimmed(name),
        lacks(name, '('),
        plain_args(args),
    ensures
        post_spec_name(written_post_spec(name, args)) == name,
        post_spec_args(written_post_spec(name, args)) == args,
{
    let j = join_with(args, arg_separator());
    let w = written_post_spec(name, args);
    assert(w[0] == '+');
    assert(('+' as u32) == 43);
    assert(w.last() == ')');
    assert((')' as u32) == 41);
    lemma_trim_trimmed(w);
    let inner = w.drop_first();
    assert(inner =~= name + seq!['('] + j + seq![')']);
    let p = name.len() as int;
    assert(inner[p] == '(');
    lemma_index_of_char(inner, '(');
    match index_of_char(inner, '(') {
        Some(i) => {
            if i < p {
                assert(inner[i] == name[i]);
            }
            assert(i == p);
        },
        None => {
            assert(false);
        },
    }
    assert(inner.last() == ')');
    assert(inner.subrange(0, p) =~= name);
    lemma_trim_trimmed(name);
    assert(inner.subrange(p + 1, inner.len() - 1) =~= j);
    if args.len() == 0 {
        assert(j =~= Seq::<char>::empty());
        assert(trim(j) =~= Seq::<char>::empty());
        assert(args =~= Seq::<Seq<char>>::empty());
    } else {
        lemma_join_ends(args);
        assert(args[0].len() > 0);
        assert(args[args.len() - 1].len() > 0);
        assert(is_trimmed(j));
        lemma_trim_trimmed(j);
        lemma_join_split(args);
        let pieces = split_on(j, ',');
        assert(pieces.map_values(|piece: Seq<char>| trim(piece)) =~= args) by {
            assert forall|i: int| 0 <= i < args.len() implies #[trigger] trim(pieces[i])
                == args[i] by {
                assert(args[i].len() > 0 && is_trimmed(args[i]));
                if i == 0 {
                    lemma_trim_trimmed(args[0]);
                } else {
                    lemma_trim_space_before(args[i]);
                }
            }
        }
    }
}

} // verus!
