//! The browser's persistent settings and the rules that keep them usable.
use vstd::prelude::*;
use crate::text::{
    chars_eq, contains_chars, find_char, first_index_of, lemma_first_index_of, push_str_chars,
    seq_contains_seq, str_chars, string_from_chars, trim_chars, trim_spec, is_unicode_whitespace,
    leading_ws, trailing_ws,
};

verus! {

/// The user's settings.
#[derive(Clone, Debug)]
pub struct BrowserConfig {
    pub search_engine: String,
    pub hardware_acceleration: bool,
}

/// The search engine used when none usable is configured.
pub open spec fn default_search_engine() -> Seq<char> {
    "https://duckduckgo.com/?q={}"@
}

/// The search engine template that validation keeps: the trimmed template
/// when it is non-empty and has a `{}` slot, the default otherwise.
pub open spec fn validated_engine(s: Seq<char>) -> Seq<char> {
    let t = trim_spec(s);
    if t.len() == 0 || !seq_contains_seq(t, "{}"@) {
        default_search_engine()
    } else {
        t
    }
}

/// The legacy escapes: `\n`, `\r` and `\\` stand for a newline, a carriage
/// return and a backslash; any other backslash is kept as it is.
pub open spec fn unescape_spec(s: Seq<char>) -> Seq<char>
    decreases s.len(),
{
    if s.len() == 0 {
        Seq::empty()
    } else if s[0] == '\\' {
        if s.len() == 1 {
            seq!['\\']
        } else if s[1] == 'n' {
            seq!['\n'] + unescape_spec(s.skip(2))
        } else if s[1] == 'r' {
            seq!['\r'] + unescape_spec(s.skip(2))
        } else if s[1] == '\\' {
            seq!['\\'] + unescape_spec(s.skip(2))
        } else {
            seq!['\\', s[1]] + unescape_spec(s.skip(2))
        }
    } else {
        seq![s[0]] + unescape_spec(s.drop_first())
    }
}

/// The settings as plain values: search engine template and acceleration flag.
pub type ConfigView = (Seq<char>, bool);

/// The effect of one line of the legacy `key = value` file: blank lines and
/// `#` comments are skipped, and only the two known keys are read.
pub open spec fn apply_ini_line(cfg: ConfigView, line: Seq<char>) -> ConfigView {
    let t = trim_spec(line);
    if t.len() == 0 || t[0] == '#' {
        cfg
    } else {
        match first_index_of(t, '=') {
            None => cfg,
            Some(i) => {
                let k = trim_spec(t.take(i));
                let v = trim_spec(t.skip(i + 1));
                if k == "search_engine"@ {
                    (unescape_spec(v), cfg.1)
                } else if k == "hardware_acceleration"@ {
                    (cfg.0, v == "true"@)
                } else {
                    cfg
                }
            },
        }
    }
}

/// The effect of a whole legacy file, line by line.
pub open spec fn apply_ini(cfg: ConfigView, content: Seq<char>) -> ConfigView
    decreases content.len(),
{
    match first_index_of(content, '\n') {
        None => apply_ini_line(cfg, content),
        Some(i) => {
            proof {
                lemma_first_index_of(content, '\n');
            }
            apply_ini(apply_ini_line(cfg, content.take(i)), content.skip(i + 1))
        },
    }
}

/// The platforms whose configuration directories differ.
#[derive(Debug, Clone, Copy, PartialEq, Eq)]
pub enum ConfigPlatform {
    Windows,
    MacOs,
    Unix,
}

/// The directory (as path components) that holds the settings, or why it
/// cannot be found, from the platform and the environment variables
/// `APPDATA`, `HOME` and `XDG_CONFIG_HOME`.
pub open spec fn config_dir_spec(
    platform: ConfigPlatform,
    appdata: Option<Seq<char>>,
    home: Option<Seq<char>>,
    xdg: Option<Seq<char>>,
) -> Result<Seq<Seq<char>>, Seq<char>> {
    match platform {
        ConfigPlatform::Windows => match appdata {
            Some(a) => Ok(seq![a, "PetalBrowser"@]),
            None => Err("Variável de ambiente APPDATA não encontrada no Windows."@),
        },
        ConfigPlatform::MacOs => match home {
            Some(h) => Ok(seq![h, "Library"@, "Application Support"@, "PetalBrowser"@]),
            None => Err("Variável de ambiente HOME não encontrada no macOS."@),
        },
        ConfigPlatform::Unix => match xdg {
            Some(x) => Ok(seq![x, "PetalBrowser"@]),
            None => match home {
                Some(h) => Ok(seq![h, ".config"@, "PetalBrowser"@]),
                None => Err(
                    "Variáveis de ambiente XDG_CONFIG_HOME ou HOME não encontradas no Linux/Unix."@,
                ),
            },
        },
    }
}

/// The view of the path components of a configuration directory.
pub open spec fn components_view(r: Result<Vec<String>, String>) -> Result<Seq<Seq<char>>, Seq<char>> {
    match r {
        Ok(v) => Ok(v@.map_values(|s: String| s@)),
        Err(e) => Err(e@),
    }
}

fn lit(s: &str) -> (r: String)
    ensures
        r@ == s@,
{
    let mut out = String::new();
    push_str_chars(&mut out, s);
    out
}

/// Where the settings live, as path components, given the platform and the
/// environment; the host joins them and creates the directory.
pub fn config_dir_components(
    platform: ConfigPlatform,
    appdata: Option<String>,
    home: Option<String>,
    xdg: Option<String>,
) -> (r: Result<Vec<String>, String>)
    ensures
        components_view(r) == config_dir_spec(
            platform,
            match appdata { Some(a) => Some(a@), None => None },
            match home { Some(h) => Some(h@), None => None },
            match xdg { Some(x) => Some(x@), None => None },
        ),
{
    match platform {
        ConfigPlatform::Windows => match appdata {
            Some(a) => {
                let ghost av = a@;
                let v = vec![a, lit("PetalBrowser")];
                assert(v@.map_values(|s: String| s@) =~= seq![av, "PetalBrowser"@]);
                Ok(v)
            },
            None => Err(lit("Variável de ambiente APPDATA não encontrada no Windows.")),
        },
        ConfigPlatform::MacOs => match home {
            Some(h) => {
                let ghost hv = h@;
                let v = vec![h, lit("Library"), lit("Application Support"), lit("PetalBrowser")];
                assert(v@.map_values(|s: String| s@) =~= seq![
                    hv,
                    "Library"@,
                    "Application Support"@,
                    "PetalBrowser"@,
                ]);
                Ok(v)
            },
            None => Err(lit("Variável de ambiente HOME não encontrada no macOS.")),
        },
        ConfigPlatform::Unix => match xdg {
            Some(x) => {
                let ghost xv = x@;
                let v = vec![x, lit("PetalBrowser")];
                assert(v@.map_values(|s: String| s@) =~= seq![xv, "PetalBrowser"@]);
                Ok(v)
            },
            None => match home {
                Some(h) => {
                    let ghost hv = h@;
                    let v = vec![h, lit(".config"), lit("PetalBrowser")];
                    assert(v@.map_values(|s: String| s@) =~= seq![hv, ".config"@, "PetalBrowser"@]);
                    Ok(v)
                },
                None => Err(
                    lit(
                        "Variáveis de ambiente XDG_CONFIG_HOME ou HOME não encontradas no Linux/Unix.",
                    ),
                ),
            },
        },
    }
}

impl Default for BrowserConfig {
    fn default() -> (c: Self)
        ensures
            c.search_engine@ == default_search_engine(),
            c.hardware_acceleration,
    {
        BrowserConfig { search_engine: lit("https://duckduckgo.com/?q={}"), hardware_acceleration: true }
    }
}

impl BrowserConfig {
    /// The settings as plain values.
    pub open spec fn view_config(&self) -> ConfigView {
        (self.search_engine@, self.hardware_acceleration)
    }

    /// Replaces an unusable search engine template by the default and trims
    /// a usable one.
    pub fn validate(&mut self)
        ensures
            final(self).search_engine@ == validated_engine(old(self).search_engine@),
            final(self).hardware_acceleration == old(self).hardware_acceleration,
    {
        let chars = str_chars(self.search_engine.as_str());
        let trimmed = trim_chars(chars.as_slice());
        let slot = str_chars("{}");
        if trimmed.len() == 0 || !contains_chars(trimmed.as_slice(), slot.as_slice()) {
            self.search_engine = lit("https://duckduckgo.com/?q={}");
        } else {
            self.search_engine = string_from_chars(trimmed.as_slice());
        }
    }

    /// Reads the settings of a legacy `key = value` file over these ones.
    pub fn apply_legacy_ini(&mut self, content: &str)
        ensures
            final(self).view_config() == apply_ini(old(self).view_config(), content@),
    {
        let chars = str_chars(content);
        let mut start: usize = 0;
        assert(chars@.skip(0) =~= chars@);
        loop
            invariant
                start <= chars@.len(),
                apply_ini(self.view_config(), chars@.skip(start as int)) == apply_ini(
                    old(self).view_config(),
                    content@,
                ),
                chars@ == content@,
            decreases chars@.len() - start,
        {
            let rest = vstd::slice::slice_subrange(chars.as_slice(), start, chars.len());
            assert(rest@ =~= chars@.skip(start as int));
            match find_char(rest, '\n') {
                None => {
                    self.apply_ini_line(rest);
                    return;
                },
                Some(i) => {
                    proof {
                        lemma_first_index_of(rest@, '\n');
                    }
                    let line = vstd::slice::slice_subrange(rest, 0, i);
                    assert(line@ =~= rest@.take(i as int));
                    self.apply_ini_line(line);
                    assert(rest@.skip(i + 1) =~= chars@.skip(start + i + 1));
                    start = start + i + 1;
                },
            }
        }
    }

    fn apply_ini_line(&mut self, line: &[char])
        ensures
            final(self).view_config() == apply_ini_line(old(self).view_config(), line@),
    {
        let t = trim_chars(line);
        if t.len() == 0 || t[0] == '#' {
            return;
        }
        let i = match find_char(t.as_slice(), '=') {
            Some(i) => i,
            None => {
                return;
            },
        };
        proof {
            lemma_first_index_of(t@, '=');
        }
        let key_part = vstd::slice::slice_subrange(t.as_slice(), 0, i);
        let value_part = vstd::slice::slice_subrange(t.as_slice(), i + 1, t.len());
        assert(key_part@ =~= t@.take(i as int));
        assert(value_part@ =~= t@.skip(i + 1));
        let k = trim_chars(key_part);
        let v = trim_chars(value_part);
        let key_engine = str_chars("search_engine");
        let key_hw = str_chars("hardware_acceleration");
        let word_true = str_chars("true");
        if chars_eq(k.as_slice(), key_engine.as_slice()) {
            let u = unescape_chars(v.as_slice());
            self.search_engine = string_from_chars(u.as_slice());
        } else if chars_eq(k.as_slice(), key_hw.as_slice()) {
            self.hardware_acceleration = chars_eq(v.as_slice(), word_true.as_slice());
        }
    }

    /// Decodes the escapes of a value from the legacy settings file.
    pub fn unescape_value_legacy(s: &str) -> (r: String)
        ensures
            r@ == unescape_spec(s@),
    {
        let chars = str_chars(s);
        let out = unescape_chars(chars.as_slice());
        string_from_chars(out.as_slice())
    }
}

fn unescape_chars(s: &[char]) -> (out: Vec<char>)
    ensures
        out@ == unescape_spec(s@),
{
    let mut out: Vec<char> = Vec::new();
    let mut i: usize = 0;
    assert(s@.skip(0) =~= s@);
    assert(out@ + unescape_spec(s@) =~= unescape_spec(s@));
    while i < s.len()
        invariant
            i <= s@.len(),
            out@ + unescape_spec(s@.skip(i as int)) == unescape_spec(s@),
        decreases s@.len() - i,
    {
        let ghost before = out@;
        let ghost rest = s@.skip(i as int);
        let c = s[i];
        if c == '\\' {
            if i + 1 < s.len() {
                let n = s[i + 1];
                if n == 'n' {
                    out.push('\n');
                } else if n == 'r' {
                    out.push('\r');
                } else if n == '\\' {
                    out.push('\\');
                } else {
                    out.push('\\');
                    out.push(n);
                }
                assert(rest.skip(2) =~= s@.skip(i + 2));
                assert(out@ + unescape_spec(s@.skip(i + 2)) =~= before + unescape_spec(rest));
                i = i + 2;
            } else {
                out.push('\\');
                assert(s@.skip(i + 1) =~= Seq::<char>::empty());
                assert(out@ + unescape_spec(s@.skip(i + 1)) =~= before + unescape_spec(rest));
                i = i + 1;
            }
        } else {
            out.push(c);
            assert(rest.drop_first() =~= s@.skip(i + 1));
            assert(out@ + unescape_spec(s@.skip(i + 1)) =~= before + unescape_spec(rest));
            i = i + 1;
        }
    }
    assert(s@.skip(s@.len() as int) =~= Seq::<char>::empty());
    assert(out@ + Seq::<char>::empty() =~= out@);
    out
}

proof fn lemma_no_ws_ends(t: Seq<char>)
    requires
        t.len() > 0,
        !is_unicode_whitespace(t[0]),
        !is_unicode_whitespace(t.last()),
    ensures
        trim_spec(t) == t,
{
    assert(leading_ws(t) == 0);
    assert(trailing_ws(t) == 0);
    assert(t.subrange(0, t.len() as int) =~= t);
}

proof fn lemma_trim_ends(s: Seq<char>)
    requires
        trim_spec(s).len() > 0,
    ensures
        !is_unicode_whitespace(trim_spec(s)[0]),
        !is_unicode_whitespace(trim_spec(s).last()),
{
    lemma_leading_ws_stop(s);
    lemma_trailing_ws_stop(s);
    let a = leading_ws(s) as int;
    let b = trailing_ws(s) as int;
    assert(a < s.len());
    assert(!is_unicode_whitespace(s[a]));
    assert(a < s.len() - b);
}

proof fn lemma_leading_ws_stop(s: Seq<char>)
    ensures
        leading_ws(s) <= s.len(),
        leading_ws(s) < s.len() ==> !is_unicode_whitespace(s[leading_ws(s) as int]),
    decreases s.len(),
{
    if s.len() > 0 && is_unicode_whitespace(s[0]) {
        lemma_leading_ws_stop(s.drop_first());
    }
}

proof fn lemma_trailing_ws_stop(s: Seq<char>)
    ensures
        trailing_ws(s) <= s.len(),
        trailing_ws(s) < s.len() ==> !is_unicode_whitespace(s[s.len() - 1 - trailing_ws(s)]),
        forall|j: int| s.len() - trailing_ws(s) <= j < s.len() ==> is_unicode_whitespace(s[j]),
    decreases s.len(),
{
    if s.len() > 0 && is_unicode_whitespace(s.last()) {
        lemma_trailing_ws_stop(s.drop_last());
        assert forall|j: int| s.len() - trailing_ws(s) <= j < s.len() implies is_unicode_whitespace(s[j]) by {
            if j < s.len() - 1 {
                assert(s[j] == s.drop_last()[j]);
            }
        }
    }
}

/// Trimming twice is trimming once.
pub proof fn lemma_trim_idempotent(s: Seq<char>)
    ensures
        trim_spec(trim_spec(s)) == trim_spec(s),
{
    if trim_spec(s).len() > 0 {
        lemma_trim_ends(s);
        lemma_no_ws_ends(trim_spec(s));
    } else {
        assert(trim_spec(s) =~= Seq::<char>::empty());
    }
}

/// The default template is itself a valid one.
proof fn lemma_default_engine_valid()
    ensures
        trim_spec(default_search_engine()) == default_search_engine(),
        seq_contains_seq(default_search_engine(), "{}"@),
{
    reveal_strlit("https://duckduckgo.com/?q={}");
    reveal_strlit("{}");
    let d = default_search_engine();
    lemma_no_ws_ends(d);
    assert(crate::text::occurs_at(d, "{}"@, d.len() - 2)) by {
        assert(d.subrange(d.len() - 2, d.len() as int) =~= "{}"@);
    }
}

/// Validation keeps a usable template, only trimmed, and replaces an
/// unusable one (blank, or without a `{}` slot) by the default.
pub proof fn lemma_validate_keeps_usable(s: Seq<char>)
    ensures
        trim_spec(s).len() > 0 && seq_contains_seq(trim_spec(s), "{}"@) ==> validated_engine(s) == trim_spec(s),
        !(trim_spec(s).len() > 0 && seq_contains_seq(trim_spec(s), "{}"@)) ==> validated_engine(s)
            == "https://duckduckgo.com/?q={}"@,
{
}

/// After validation the template is trimmed and has a `{}` slot for the query.
pub proof fn lemma_validated_engine_usable(s: Seq<char>)
    ensures
        trim_spec(validated_engine(s)) == validated_engine(s),
        seq_contains_seq(validated_engine(s), "{}"@),
{
    lemma_default_engine_valid();
    lemma_trim_idempotent(s);
}

/// Validating settings twice changes nothing the second time.
pub proof fn lemma_validate_idempotent(s: Seq<char>)
    ensures
        validated_engine(validated_engine(s)) == validated_engine(s),
{
    lemma_validated_engine_usable(s);
}

/// A value without backslashes needs no decoding.
pub proof fn lemma_unescape_plain(s: Seq<char>)
    requires
        !s.contains('\\'),
    ensures
        unescape_spec(s) == s,
    decreases s.len(),
{
    if s.len() > 0 {
        assert(s[0] != '\\');
        assert(!s.drop_first().contains('\\')) by {
            if s.drop_first().contains('\\') {
                let j = choose|j: int| 0 <= j < s.drop_first().len() && s.drop_first()[j] == '\\';
                assert(s[j + 1] == '\\');
            }
        }
        lemma_unescape_plain(s.drop_first());
        assert(seq![s[0]] + s.drop_first() =~= s);
    }
}

} // verus!
