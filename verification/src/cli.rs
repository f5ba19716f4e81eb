//! The command line as plain values, and the colour decision it drives.

use std::path::PathBuf;

use vstd::prelude::*;

verus! {

#[verifier::external_type_specification]
#[verifier::external_body]
pub struct ExPathBuf(PathBuf);

/// How the result is printed.
#[derive(Copy, Clone, Debug, PartialEq, Eq, Structural)]
pub enum OutputFormat {
    Human,
    Json,
    Jsonl,
}

/// Whether ANSI colour is used.
#[derive(Copy, Clone, Debug, PartialEq, Eq, Structural)]
pub enum ColorMode {
    Auto,
    Always,
    Never,
}

/// The options of one measurement run.
pub struct Cli {
    pub url: String,
    pub format: OutputFormat,
    pub color: ColorMode,
    pub save: Option<PathBuf>,
    pub slo: Vec<String>,
    pub method: String,
    pub headers: Vec<String>,
    pub data: Option<String>,
    pub proxy: Option<String>,
    pub timeout_ms: u64,
    pub insecure: bool,
    pub no_color: bool,
}

/// Colour is off under `--no-color` whatever the mode ("Do not emit ANSI
/// colors"); otherwise it is off when asked for (`never`), on when asked for
/// (`always`), and under `auto` off when `NO_COLOR` is set or output is not a
/// terminal.
pub open spec fn color_is_disabled(mode: ColorMode, no_color_flag: bool, no_color_env: bool, stdout_is_terminal: bool) -> bool {
    no_color_flag || match mode {
        ColorMode::Always => false,
        ColorMode::Never => true,
        ColorMode::Auto => no_color_env || !stdout_is_terminal,
    }
}

/// Decides whether colour is disabled, from the options and what the
/// environment says (whether `NO_COLOR` is set, whether stdout is a terminal).
pub fn color_disabled(cli: &Cli, no_color_env: bool, stdout_is_terminal: bool) -> (r: bool)
    ensures
        r == color_is_disabled(cli.color, cli.no_color, no_color_env, stdout_is_terminal),
{
    if cli.no_color {
        return true;
    }
    match cli.color {
        ColorMode::Always => false,
        ColorMode::Never => true,
        ColorMode::Auto => no_color_env || !stdout_is_terminal,
    }
}


/// How the colour decision behaves over all inputs: `--no-color` and
/// `never` always turn colour off; `always` without `--no-color` keeps it
/// on; under `auto`, a set `NO_COLOR` or output that is not a terminal turns
/// it off, and with neither (and no `--no-color`) it stays on. Setting
/// `NO_COLOR`, passing `--no-color` or losing the terminal never turns
/// colour on.
pub proof fn law_colour_decision(mode: ColorMode, no_color_flag: bool, no_color_env: bool, stdout_is_terminal: bool)
    ensures
        no_color_flag ==> color_is_disabled(mode, no_color_flag, no_color_env, stdout_is_terminal),
        mode == ColorMode::Never ==> color_is_disabled(mode, no_color_flag, no_color_env, stdout_is_terminal),
        mode == ColorMode::Always && !no_color_flag ==> !color_is_disabled(mode, no_color_flag, no_color_env, stdout_is_terminal),
        mode == ColorMode::Auto && (no_color_env || !stdout_is_terminal) ==> color_is_disabled(
            mode,
            no_color_flag,
            no_color_env,
            stdout_is_terminal,
        ),
        mode == ColorMode::Auto && !no_color_flag && !no_color_env && stdout_is_terminal
            ==> !color_is_disabled(mode, no_color_flag, no_color_env, stdout_is_terminal),
        color_is_disabled(mode, no_color_flag, no_color_env, stdout_is_terminal) ==> color_is_disabled(
            mode,
            true,
            no_color_env,
            stdout_is_terminal,
        ) && color_is_disabled(mode, no_color_flag, true, stdout_is_terminal) && color_is_disabled(
            mode,
            no_color_flag,
            no_color_env,
            false,
        ),
{
}

}
