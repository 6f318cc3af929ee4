//! Where shell completion scripts are installed, and which shell is in use.
use vstd::prelude::*;

use crate::paths::{file_name_of, join, join_path, path_file_name};
use crate::text::chars_of;
use crate::walk::{trim_str, trim_ws};

verus! {

/// A shell that completions are offered for.
#[derive(Clone, Copy, Debug, PartialEq, Eq, Structural)]
pub enum Shell {
    Zsh,
    Bash,
    Fish,
}

/// `s` without its leading dashes, as a login shell's name has them.
pub open spec fn drop_dashes(s: Seq<char>) -> Seq<char>
    decreases s.len(),
{
    if s.len() > 0 && s[0] == '-' {
        drop_dashes(s.skip(1))
    } else {
        s
    }
}

/// The name of the shell at `path`: its last component, trimmed, without
/// leading dashes.
pub open spec fn shell_name(path: Seq<char>) -> Seq<char> {
    let base = match path_file_name(path) {
        Some(n) => n,
        None => path,
    };
    drop_dashes(trim_ws(base))
}

pub open spec fn shell_of_name(name: Seq<char>) -> Option<Shell> {
    if name == "zsh"@ {
        Some(Shell::Zsh)
    } else if name == "bash"@ {
        Some(Shell::Bash)
    } else if name == "fish"@ {
        Some(Shell::Fish)
    } else {
        None
    }
}

fn without_dashes(s: &str) -> (r: String)
    ensures
        r@ == drop_dashes(s@),
{
    let t = chars_of(s);
    let n = t.len();
    let mut i: usize = 0;
    assert(s@.skip(0) =~= s@);
    while i < n && t[i] == '-'
        invariant
            i <= n,
            n == t@.len(),
            t@ == s@,
            drop_dashes(s@.skip(i as int)) == drop_dashes(s@),
        decreases n - i,
    {
        assert(s@.skip(i as int).skip(1) =~= s@.skip(i + 1));
        i = i + 1;
    }
    let r = String::from_str(s.substring_char(i, n));
    assert(r@ =~= s@.skip(i as int));
    r
}

/// The shell named by the `SHELL` setting `shell_env`, if it is one that
/// completions are offered for.
pub fn detect_shell(shell_env: Option<&str>) -> (r: Option<Shell>)
    ensures
        match shell_env {
            Some(s) => r == shell_of_name(shell_name(s@)),
            None => r is None,
        },
{
    let s = match shell_env {
        Some(s) => s,
        None => return None,
    };
    let base = match file_name_of(s) {
        Some(n) => n,
        None => String::from_str(s),
    };
    let trimmed = trim_str(base.as_str());
    let name = without_dashes(trimmed.as_str());
    if name == String::from_str("zsh") {
        Some(Shell::Zsh)
    } else if name == String::from_str("bash") {
        Some(Shell::Bash)
    } else if name == String::from_str("fish") {
        Some(Shell::Fish)
    } else {
        None
    }
}

/// The shell to install completions for: the one asked for, else the one
/// detected from `SHELL`.
pub fn resolve_shell(shell_arg: Option<Shell>, shell_env: Option<&str>) -> (r: Result<Shell, String>)
    ensures
        shell_arg is Some ==> r == Ok::<Shell, String>(shell_arg->Some_0),
        shell_arg is None && shell_env is Some && shell_of_name(shell_name(shell_env->Some_0@))
            is Some ==> r == Ok::<Shell, String>(shell_of_name(shell_name(shell_env->Some_0@))->Some_0),
        shell_arg is None && (shell_env is None || shell_of_name(shell_name(shell_env->Some_0@))
            is None) ==> r is Err && r->Err_0@
            == "cannot detect supported shell; use --shell zsh|bash|fish"@,
{
    match shell_arg {
        Some(s) => Ok(s),
        None => match detect_shell(shell_env) {
            Some(s) => Ok(s),
            None => Err(String::from_str("cannot detect supported shell; use --shell zsh|bash|fish")),
        },
    }
}

/// A base directory from its XDG setting `xdg` (named `var`), else from
/// `home` with `fallback` below it.
pub open spec fn xdg_dir_spec(
    home: Option<Seq<char>>,
    xdg: Option<Seq<char>>,
    var: Seq<char>,
    fallback: Seq<char>,
) -> Result<Seq<char>, Seq<char>> {
    match xdg {
        Some(x) if x.len() > 0 => if x[0] == '/' {
            Ok(x)
        } else {
            Err(var + " must be an absolute path"@)
        },
        _ => match home {
            Some(h) => Ok(join_path(h, fallback)),
            None => Err("home directory is not set; set $HOME or "@ + var),
        },
    }
}

pub open spec fn res_view(r: Result<String, String>) -> Result<Seq<char>, Seq<char>> {
    match r {
        Ok(s) => Ok(s@),
        Err(e) => Err(e@),
    }
}

pub open spec fn opt_str_view(o: Option<&str>) -> Option<Seq<char>> {
    match o {
        Some(s) => Some(s@),
        None => None,
    }
}

fn xdg_dir(home: Option<&str>, xdg: Option<&str>, var: &str, fallback: &str) -> (r: Result<
    String,
    String,
>)
    ensures
        res_view(r) == xdg_dir_spec(opt_str_view(home), opt_str_view(xdg), var@, fallback@),
{
    if let Some(x) = xdg {
        let n = x.unicode_len();
        if n > 0 {
            if x.get_char(0) == '/' {
                return Ok(String::from_str(x));
            }
            let mut m = String::from_str(var);
            m.append(" must be an absolute path");
            return Err(m);
        }
    }
    match home {
        Some(h) => Ok(join(h, fallback)),
        None => {
            let mut m = String::from_str("home directory is not set; set $HOME or ");
            m.append(var);
            Err(m)
        },
    }
}

/// The data directory: `XDG_DATA_HOME` when set, else `~/.local/share`.
pub fn xdg_data_dir(home: Option<&str>, xdg_data_home: Option<&str>) -> (r: Result<String, String>)
    ensures
        res_view(r) == xdg_dir_spec(
            opt_str_view(home),
            opt_str_view(xdg_data_home),
            "XDG_DATA_HOME"@,
            ".local/share"@,
        ),
{
    xdg_dir(home, xdg_data_home, "XDG_DATA_HOME", ".local/share")
}

/// The configuration directory: `XDG_CONFIG_HOME` when set, else
/// `~/.config`.
pub fn xdg_config_dir(home: Option<&str>, xdg_config_home: Option<&str>) -> (r: Result<String, String>)
    ensures
        res_view(r) == xdg_dir_spec(
            opt_str_view(home),
            opt_str_view(xdg_config_home),
            "XDG_CONFIG_HOME"@,
            ".config"@,
        ),
{
    xdg_dir(home, xdg_config_home, "XDG_CONFIG_HOME", ".config")
}

/// Where the completion script of `shell` is installed.
pub open spec fn completion_path_spec(
    shell: Shell,
    home: Option<Seq<char>>,
    xdg_data: Option<Seq<char>>,
    xdg_config: Option<Seq<char>>,
) -> Result<Seq<char>, Seq<char>> {
    let (dir, rel) = match shell {
        Shell::Zsh => (
            xdg_dir_spec(home, xdg_data, "XDG_DATA_HOME"@, ".local/share"@),
            "zsh/site-functions/_wt"@,
        ),
        Shell::Bash => (
            xdg_dir_spec(home, xdg_data, "XDG_DATA_HOME"@, ".local/share"@),
            "bash-completion/completions/wt"@,
        ),
        Shell::Fish => (
            xdg_dir_spec(home, xdg_config, "XDG_CONFIG_HOME"@, ".config"@),
            "fish/completions/wt.fish"@,
        ),
    };
    match dir {
        Ok(d) => Ok(join_path(d, rel)),
        Err(e) => Err(e),
    }
}

/// Where the completion script of `shell` is installed.
pub fn completion_path(
    shell: Shell,
    home: Option<&str>,
    xdg_data_home: Option<&str>,
    xdg_config_home: Option<&str>,
) -> (r: Result<String, String>)
    ensures
        res_view(r) == completion_path_spec(
            shell,
            opt_str_view(home),
            opt_str_view(xdg_data_home),
            opt_str_view(xdg_config_home),
        ),
{
    let (dir, rel) = match shell {
        Shell::Zsh => (xdg_data_dir(home, xdg_data_home), "zsh/site-functions/_wt"),
        Shell::Bash => (xdg_data_dir(home, xdg_data_home), "bash-completion/completions/wt"),
        Shell::Fish => (xdg_config_dir(home, xdg_config_home), "fish/completions/wt.fish"),
    };
    match dir {
        Ok(d) => Ok(join(d.as_str(), rel)),
        Err(e) => Err(e),
    }
}

} // verus!
