//! Configuration files: where they are looked for and which format they use.
use vstd::prelude::*;

use crate::forge::after_last;
use crate::text::{chars_of, rfind, rfind_char, slice, str_eq, string_from};

verus! {

/// The format of a configuration file.
#[derive(Debug, Clone, Copy, PartialEq, Eq, Structural)]
pub enum ConfigFormat {
    Yaml,
    Json,
}

/// The extension of a path, as `Path::extension` gives it: what follows the
/// last `.` of the file name, unless the name has no `.` other than a
/// leading one.
pub open spec fn extension_spec(path: Seq<char>) -> Option<Seq<char>> {
    let name = after_last(path, '/');
    match rfind_char(name, '.') {
        Some(i) => if i > 0 {
            Some(name.skip(i + 1))
        } else {
            None
        },
        None => None,
    }
}

/// `.json` and `.jsonc` files are JSON; everything else is YAML.
pub open spec fn format_spec(path: Seq<char>) -> ConfigFormat {
    match extension_spec(path) {
        Some(e) => if e == "json"@ || e == "jsonc"@ {
            ConfigFormat::Json
        } else {
            ConfigFormat::Yaml
        },
        None => ConfigFormat::Yaml,
    }
}

/// The format of a configuration file, from its extension.
pub fn detect_format(path: &str) -> (res: ConfigFormat)
    ensures
        res == format_spec(path@),
{
    let p = chars_of(path);
    proof {
        crate::text::lemma_rfind_char(p@, '/');
    }
    let name = match rfind(&p, '/') {
        Some(i) => slice(&p, i + 1, p.len()),
        None => p,
    };
    assert(name@ =~= after_last(path@, '/'));
    proof {
        crate::text::lemma_rfind_char(name@, '.');
    }
    match rfind(&name, '.') {
        Some(i) => {
            if i == 0 {
                return ConfigFormat::Yaml;
            }
            let ext = slice(&name, i + 1, name.len());
            let e = string_from(&ext);
            if str_eq(e.as_str(), "json") || str_eq(e.as_str(), "jsonc") {
                ConfigFormat::Json
            } else {
                ConfigFormat::Yaml
            }
        },
        None => ConfigFormat::Yaml,
    }
}

/// The configuration files looked for, in priority order, with their format.
pub fn config_candidates() -> (res: Vec<(&'static str, ConfigFormat)>)
    ensures
        res@.len() == 4,
        res@[0].0@ == ".release.yaml"@ && res@[0].1 == ConfigFormat::Yaml,
        res@[1].0@ == ".release.yml"@ && res@[1].1 == ConfigFormat::Yaml,
        res@[2].0@ == ".release.json"@ && res@[2].1 == ConfigFormat::Json,
        res@[3].0@ == ".release.jsonc"@ && res@[3].1 == ConfigFormat::Json,
{
    let mut v: Vec<(&'static str, ConfigFormat)> = Vec::new();
    v.push((".release.yaml", ConfigFormat::Yaml));
    v.push((".release.yml", ConfigFormat::Yaml));
    v.push((".release.json", ConfigFormat::Json));
    v.push((".release.jsonc", ConfigFormat::Json));
    v
}

} // verus!
