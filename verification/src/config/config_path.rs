//! Where the rule files live, derived from the caller-provided values of
//! the three environment variables that govern it.

use vstd::prelude::*;
use vstd::string::*;

verus! {

/// The value of one environment variable, as the caller read it: unset,
/// set but not valid text, or set to a string.
#[derive(Debug)]
pub enum EnvValue {
    Unset,
    Invalid,
    Utf8(String),
}

/// The directory the rule files are read from, given the values of
/// `ZABRZE_CONFIG_HOME`, `XDG_CONFIG_HOME` and `HOME`, in that priority.
pub open spec fn default_dir_spec(
    zabrze_config_home: EnvValue,
    xdg_config_home: EnvValue,
    home: EnvValue,
) -> Option<Seq<char>> {
    match zabrze_config_home {
        EnvValue::Utf8(s) => Some(s@),
        EnvValue::Invalid => None,
        EnvValue::Unset => match xdg_config_home {
            EnvValue::Utf8(s) => Some(s@ + "/zabrze"@),
            EnvValue::Invalid => None,
            EnvValue::Unset => match home {
                EnvValue::Utf8(s) => Some(s@ + "/.config/zabrze"@),
                EnvValue::Invalid => None,
                EnvValue::Unset => None,
            },
        },
    }
}

/// Resolves the rule directory from the three environment values, trying
/// `ZABRZE_CONFIG_HOME`, then `XDG_CONFIG_HOME`, then `HOME`.
pub fn get_default_config_dir(
    zabrze_config_home: EnvValue,
    xdg_config_home: EnvValue,
    home: EnvValue,
) -> (r: Option<String>)
    ensures
        (r is Some) <==> (default_dir_spec(zabrze_config_home, xdg_config_home, home) is Some),
        r matches Some(s) ==> default_dir_spec(zabrze_config_home, xdg_config_home, home) == Some(
            s@,
        ),
{
    match zabrze_config_home {
        EnvValue::Utf8(s) => Some(s),
        EnvValue::Invalid => None,
        EnvValue::Unset => match xdg_config_home {
            EnvValue::Utf8(s) => {
                let mut dir = s;
                dir.append("/zabrze");
                Some(dir)
            },
            EnvValue::Invalid => None,
            EnvValue::Unset => match home {
                EnvValue::Utf8(s) => {
                    let mut dir = s;
                    dir.append("/.config/zabrze");
                    Some(dir)
                },
                EnvValue::Invalid => None,
                EnvValue::Unset => None,
            },
        },
    }
}

} // verus!
