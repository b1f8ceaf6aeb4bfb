//! A host-only ad and tracker blocker: a navigation is refused when the host
//! of its address is a listed domain or a subdomain of one.
use vstd::prelude::*;
use crate::text::{
    string_push_char,
    before_char, before_char_chars, occurs_at, chars_eq, ends_with_chars, find_seq, first_occurrence,
    push_chars, push_str_chars, seq_ends_with, seq_starts_with, starts_with_chars, str_chars,
    string_from_chars,
};

verus! {

/// The result of std's `str::to_lowercase` on the given characters.
pub uninterp spec fn str_to_lowercase(s: Seq<char>) -> Seq<char>;

/// Lower-cases a string with std's `str::to_lowercase`. Claimed: the result
/// is that function of the input characters. Unicode's case mapping itself
/// is not described.
#[verifier::external_body]
fn to_lowercase(s: &str) -> (r: String)
    ensures
        r@ == str_to_lowercase(s@),
{
    s.to_lowercase()
}

/// The domains blocked from the start.
pub open spec fn base_blocklist() -> Seq<Seq<char>> {
    seq![
        "doubleclick.net"@,
        "google-analytics.com"@,
        "googlesyndication.com"@,
        "adservice.google.com"@,
        "amazon-adsystem.com"@,
        "taboola.com"@,
        "outbrain.com"@,
        "criteo.com"@,
        "adsafeprotected.com"@,
        "adnxs.com"@,
        "adform.net"@,
        "connect.facebook.net"@,
        "pixel.facebook.com"@,
        "hotjar.com"@,
        "clarity.ms"@,
    ]
}

/// The blocker and its rules: each domain with its `.domain` suffix.
pub struct AdblockEngine {
    rules: Vec<(String, String)>,
}

/// The host of an address: what follows the first `://` (up to the next
/// one), cut at the first `/` and then at the first `:`; none when empty.
pub open spec fn extract_host_spec(url: Seq<char>) -> Option<Seq<char>> {
    let host = before_char(before_char(after_scheme_spec(url), '/'), ':');
    if host.len() == 0 {
        None
    } else {
        Some(host)
    }
}

/// What follows the first `://` of an address, up to the next `://`; the
/// whole address when it has none.
pub open spec fn after_scheme_spec(url: Seq<char>) -> Seq<char> {
    match first_occurrence(url, "://"@) {
        Some(i) => {
            let rest = url.skip(i + 3);
            match first_occurrence(rest, "://"@) {
                Some(j) => rest.take(j),
                None => rest,
            }
        },
        None => url,
    }
}

fn after_scheme(url: &[char]) -> (r: Vec<char>)
    ensures
        r@ == after_scheme_spec(url@),
{
    let sep = str_chars("://");
    proof {
        reveal_strlit("://");
    }
    assert(sep@.len() == 3);
    match find_seq(url, sep.as_slice()) {
        Some(i) => {
            assert(occurs_at(url@, sep@, i as int));
            assert(i + 3 <= url@.len());
            let len = url.len();
            assert(len == url@.len());
            let rest = vstd::slice::slice_subrange(url, i + 3, url.len());
            assert(rest@ =~= url@.skip(i + 3));
            match find_seq(rest, sep.as_slice()) {
                Some(j) => {
                    let part = vstd::slice::slice_subrange(rest, 0, j);
                    assert(part@ =~= rest@.take(j as int));
                    vstd::slice::slice_to_vec(part)
                },
                None => vstd::slice::slice_to_vec(rest),
            }
        },
        None => vstd::slice::slice_to_vec(url),
    }
}

/// `host` is one of `domains` or a subdomain of one.
pub open spec fn host_matches(domains: Seq<Seq<char>>, host: Seq<char>) -> bool {
    exists|k: int| 0 <= k < domains.len() && (host == domains[k] || seq_ends_with(host, "."@ + domains[k]))
}

/// Whether the already lower-cased address `url` is refused: never for
/// `petal://` and `file://` pages or local servers, otherwise exactly when
/// its host matches a blocked domain.
pub open spec fn blocks_spec(domains: Seq<Seq<char>>, url: Seq<char>) -> bool {
    if seq_starts_with(url, "petal://"@) || seq_starts_with(url, "file://"@) {
        false
    } else {
        match extract_host_spec(url) {
            None => false,
            Some(host) => if host == "localhost"@ || seq_starts_with(host, "127.0.0.1"@) {
                false
            } else {
                host_matches(domains, host)
            },
        }
    }
}

/// Lower-case hexadecimal digit of a value below sixteen.
pub open spec fn hex_digit(d: int) -> char {
    seq!['0', '1', '2', '3', '4', '5', '6', '7', '8', '9', 'a', 'b', 'c', 'd', 'e', 'f'][d]
}

/// How a character is written inside a JSON string: quotes and backslashes
/// are escaped, control characters become `\u00XX`, the rest stays.
pub open spec fn json_escape_char(c: char) -> Seq<char> {
    if c == '"' {
        seq!['\\', '"']
    } else if c == '\\' {
        seq!['\\', '\\']
    } else if (c as u32) < 0x20 {
        seq!['\\', 'u', '0', '0', hex_digit((c as u32) as int / 16), hex_digit((c as u32) as int % 16)]
    } else {
        seq![c]
    }
}

/// The characters of `s`, each written as inside a JSON string.
pub open spec fn json_escape(s: Seq<char>) -> Seq<char>
    decreases s.len(),
{
    if s.len() == 0 {
        Seq::empty()
    } else {
        json_escape(s.drop_last()) + json_escape_char(s.last())
    }
}

/// `s` as a JSON string literal.
pub open spec fn json_string(s: Seq<char>) -> Seq<char> {
    seq!['"'] + json_escape(s) + seq!['"']
}

/// The JSON string literals of `ds`, separated by commas.
pub open spec fn json_items(ds: Seq<Seq<char>>) -> Seq<char>
    decreases ds.len(),
{
    if ds.len() == 0 {
        Seq::empty()
    } else if ds.len() == 1 {
        json_string(ds[0])
    } else {
        json_items(ds.drop_last()) + seq![','] + json_string(ds.last())
    }
}

/// `ds` as a JSON array of strings, in order.
pub open spec fn json_string_array(ds: Seq<Seq<char>>) -> Seq<char> {
    seq!['['] + json_items(ds) + seq![']']
}

/// Text without quotes, backslashes or control characters is written in a
/// JSON string as it is.
pub proof fn lemma_json_escape_plain(s: Seq<char>)
    requires
        forall|i: int| 0 <= i < s.len() ==> {
            let c = #[trigger] s[i];
            c != '"' && c != '\\' && (c as u32) >= 0x20
        },
    ensures
        json_escape(s) == s,
    decreases s.len(),
{
    if s.len() > 0 {
        assert forall|i: int| 0 <= i < s.drop_last().len() implies {
            let c = #[trigger] s.drop_last()[i];
            c != '"' && c != '\\' && (c as u32) >= 0x20
        } by {
            assert(s.drop_last()[i] == s[i]);
        }
        lemma_json_escape_plain(s.drop_last());
        assert(s.last() == s[s.len() - 1]);
        assert(s.drop_last() + seq![s.last()] =~= s);
    }
}

fn hex_digit_of(d: u32) -> (c: char)
    requires
        d < 16,
    ensures
        c == hex_digit(d as int),
{
    let digits = ['0', '1', '2', '3', '4', '5', '6', '7', '8', '9', 'a', 'b', 'c', 'd', 'e', 'f'];
    assert(digits@ =~= seq!['0', '1', '2', '3', '4', '5', '6', '7', '8', '9', 'a', 'b', 'c', 'd', 'e', 'f']);
    digits[d as usize]
}

/// Appends `s` as a JSON string literal.
fn push_json_string(out: &mut String, s: &str)
    ensures
        final(out)@ == old(out)@ + json_string(s@),
{
    let chars = str_chars(s);
    string_push_char(out, '"');
    let ghost start = out@;
    let mut i: usize = 0;
    assert(chars@.take(0) =~= Seq::<char>::empty());
    assert(start =~= start + json_escape(chars@.take(0)));
    while i < chars.len()
        invariant
            i <= chars@.len(),
            out@ == start + json_escape(chars@.take(i as int)),
        decreases chars@.len() - i,
    {
        let c = chars[i];
        let code = c as u32;
        if c == '"' {
            string_push_char(out, '\\');
            string_push_char(out, '"');
        } else if c == '\\' {
            string_push_char(out, '\\');
            string_push_char(out, '\\');
        } else if code < 0x20 {
            string_push_char(out, '\\');
            string_push_char(out, 'u');
            string_push_char(out, '0');
            string_push_char(out, '0');
            string_push_char(out, hex_digit_of(code / 16));
            string_push_char(out, hex_digit_of(code % 16));
        } else {
            string_push_char(out, c);
        }
        proof {
            assert(chars@.take(i + 1).drop_last() =~= chars@.take(i as int));
            assert(chars@.take(i + 1).last() == c);
            let e = json_escape_char(c);
            assert(out@ =~= start + json_escape(chars@.take(i as int)) + e);
            assert(json_escape(chars@.take(i + 1)) == json_escape(chars@.take(i as int)) + e);
            assert(out@ =~= start + json_escape(chars@.take(i + 1)));
        }
        i += 1;
    }
    assert(chars@.take(chars@.len() as int) =~= chars@);
    string_push_char(out, '"');
    assert(out@ =~= old(out)@ + json_string(s@));
}

impl AdblockEngine {
    /// The blocked domains, in order.
    pub closed spec fn domains(&self) -> Seq<Seq<char>> {
        self.rules@.map_values(|r: (String, String)| r.0@)
    }

    /// Each rule's suffix is its domain with a leading dot.
    #[verifier::type_invariant]
    closed spec fn rules_well_formed(self) -> bool {
        forall|i: int| 0 <= i < self.rules@.len() ==> #[trigger] self.rules@[i].1@ == "."@ + self.rules@[i].0@
    }

    /// The blocker with the built-in list of ad and tracker domains.
    pub fn start() -> (e: Self)
        ensures
            e.domains() == base_blocklist(),
    {
        let base_list: Vec<&str> = vec![
            "doubleclick.net",
            "google-analytics.com",
            "googlesyndication.com",
            "adservice.google.com",
            "amazon-adsystem.com",
            "taboola.com",
            "outbrain.com",
            "criteo.com",
            "adsafeprotected.com",
            "adnxs.com",
            "adform.net",
            "connect.facebook.net",
            "pixel.facebook.com",
            "hotjar.com",
            "clarity.ms",
        ];
        let ghost names = base_list@.map_values(|d: &str| d@);
        assert(names =~= base_blocklist());
        let mut rules: Vec<(String, String)> = Vec::new();
        let mut i: usize = 0;
        while i < base_list.len()
            invariant
                i <= base_list@.len(),
                names == base_list@.map_values(|d: &str| d@),
                rules@.len() == i,
                forall|k: int| 0 <= k < i ==> #[trigger] rules@[k].0@ == names[k],
                forall|k: int| 0 <= k < i ==> #[trigger] rules@[k].1@ == "."@ + rules@[k].0@,
            decreases base_list@.len() - i,
        {
            let d = base_list[i];
            let mut domain = String::new();
            push_str_chars(&mut domain, d);
            let mut suffix = String::new();
            push_str_chars(&mut suffix, ".");
            push_str_chars(&mut suffix, d);
            rules.push((domain, suffix));
            i += 1;
        }
        let e = Self { rules };
        assert(e.domains() =~= base_blocklist());
        e
    }

    /// The host of an address, if it has a non-empty one.
    fn extract_host(url: &[char]) -> (r: Option<Vec<char>>)
        ensures
            match r {
                Some(h) => extract_host_spec(url@) == Some(h@),
                None => extract_host_spec(url@) is None,
            },
    {
        let after_scheme = after_scheme(url);
        let host_port = before_char_chars(after_scheme.as_slice(), '/');
        let host = before_char_chars(host_port.as_slice(), ':');
        if host.len() == 0 {
            None
        } else {
            Some(host)
        }
    }

    /// Whether navigating to `url` is refused. The address is lower-cased
    /// first.
    pub fn should_block(&self, url: &str) -> (r: bool)
        ensures
            r == blocks_spec(self.domains(), str_to_lowercase(url@)),
    {
        let normalized = to_lowercase(url);
        self.should_block_normalized(normalized.as_str())
    }

    /// Whether navigating to the already lower-cased address `normalized` is
    /// refused.
    pub fn should_block_normalized(&self, normalized: &str) -> (r: bool)
        ensures
            r == blocks_spec(self.domains(), normalized@),
    {
        proof {
            use_type_invariant(self);
        }
        let url = str_chars(normalized);
        let u = url.as_slice();
        let petal = str_chars("petal://");
        let file = str_chars("file://");
        if starts_with_chars(u, petal.as_slice()) || starts_with_chars(u, file.as_slice()) {
            return false;
        }
        let host = match Self::extract_host(u) {
            Some(h) => h,
            None => {
                return false;
            },
        };
        let h = host.as_slice();
        let localhost = str_chars("localhost");
        let loopback = str_chars("127.0.0.1");
        if chars_eq(h, localhost.as_slice()) || starts_with_chars(h, loopback.as_slice()) {
            return false;
        }
        let mut i: usize = 0;
        while i < self.rules.len()
            invariant
                i <= self.rules@.len(),
                url@ == normalized@,
                !(seq_starts_with(url@, "petal://"@) || seq_starts_with(url@, "file://"@)),
                extract_host_spec(normalized@) == Some(h@),
                !(h@ == "localhost"@ || seq_starts_with(h@, "127.0.0.1"@)),
                forall|k: int| 0 <= k < self.rules@.len() ==> #[trigger] self.rules@[k].1@ == "."@ + self.rules@[k].0@,
                forall|k: int|
                    0 <= k < i ==> !(h@ == #[trigger] self.rules@[k].0@ || seq_ends_with(h@, "."@ + self.rules@[k].0@)),
            decreases self.rules@.len() - i,
        {
            let domain = str_chars(self.rules[i].0.as_str());
            let suffix = str_chars(self.rules[i].1.as_str());
            if chars_eq(h, domain.as_slice()) || ends_with_chars(h, suffix.as_slice()) {
                assert(self.domains()[i as int] == self.rules@[i as int].0@);
                assert(suffix@ == "."@ + self.domains()[i as int]);
                assert(h@ == self.domains()[i as int] || seq_ends_with(h@, "."@ + self.domains()[i as int]));
                return true;
            }
            i += 1;
        }
        proof {
            assert forall|k: int| 0 <= k < self.domains().len() implies !(h@ == self.domains()[k]
                || seq_ends_with(h@, "."@ + self.domains()[k])) by {
                assert(self.domains()[k] == self.rules@[k].0@);
            }
        }
        false
    }

    /// The blocked domains as a JSON array of strings, `["d1","d2",...]`,
    /// in rule order; being JSON, it is also a JavaScript array literal.
    pub fn get_blocked_domains_js_array(&self) -> (r: String)
        ensures
            r@ == json_string_array(self.domains()),
    {
        let mut out = String::new();
        string_push_char(&mut out, '[');
        let ghost start = out@;
        let mut i: usize = 0;
        assert(self.domains().take(0) =~= Seq::<Seq<char>>::empty());
        assert(out@ =~= start + json_items(self.domains().take(0)));
        while i < self.rules.len()
            invariant
                i <= self.rules@.len(),
                out@ == start + json_items(self.domains().take(i as int)),
            decreases self.rules@.len() - i,
        {
            let ghost before = out@;
            if i > 0 {
                string_push_char(&mut out, ',');
            }
            push_json_string(&mut out, self.rules[i].0.as_str());
            proof {
                let t = self.domains().take(i + 1);
                assert(t.drop_last() =~= self.domains().take(i as int));
                assert(t.last() == self.rules@[i as int].0@);
                if i == 0 {
                    assert(json_items(self.domains().take(0)) =~= Seq::<char>::empty());
                    assert(out@ =~= start + json_string(t[0]));
                } else {
                    assert(out@ =~= start + (json_items(t.drop_last()) + seq![','] + json_string(t.last())));
                }
            }
            i += 1;
        }
        assert(self.domains().take(self.rules@.len() as int) =~= self.domains());
        string_push_char(&mut out, ']');
        assert(out@ =~= json_string_array(self.domains()));
        out
    }
}

impl Clone for AdblockEngine {
    fn clone(&self) -> (r: Self)
        ensures
            r.domains() == self.domains(),
    {
        proof {
            use_type_invariant(self);
        }
        let mut rules: Vec<(String, String)> = Vec::new();
        let mut i: usize = 0;
        while i < self.rules.len()
            invariant
                i <= self.rules@.len(),
                rules@.len() == i,
                forall|k: int| 0 <= k < self.rules@.len() ==> #[trigger] self.rules@[k].1@ == "."@ + self.rules@[k].0@,
                forall|k: int| 0 <= k < i ==> #[trigger] rules@[k].0@ == self.rules@[k].0@,
                forall|k: int| 0 <= k < i ==> #[trigger] rules@[k].1@ == self.rules@[k].1@,
            decreases self.rules@.len() - i,
        {
            let d = self.rules[i].0.clone();
            let s = self.rules[i].1.clone();
            rules.push((d, s));
            i += 1;
        }
        let r = Self { rules };
        assert(r.domains() =~= self.domains());
        r
    }
}

/// Pages of the browser itself and local files are never blocked.
pub proof fn lemma_local_schemes_never_blocked(domains: Seq<Seq<char>>, url: Seq<char>)
    requires
        seq_starts_with(url, "petal://"@) || seq_starts_with(url, "file://"@),
    ensures
        !blocks_spec(domains, url),
{
}

/// A navigation is refused only when it is no local page or server and its
/// host is a listed domain or a subdomain of one.
pub proof fn lemma_blocked_only_listed(domains: Seq<Seq<char>>, url: Seq<char>)
    requires
        blocks_spec(domains, url),
    ensures
        !seq_starts_with(url, "petal://"@),
        !seq_starts_with(url, "file://"@),
        extract_host_spec(url) matches Some(h) && h != "localhost"@ && !seq_starts_with(h, "127.0.0.1"@)
            && exists|k: int| 0 <= k < domains.len() && (h == domains[k] || seq_ends_with(h, "."@ + domains[k])),
{
}

/// A listed domain is blocked, and so is every subdomain of it.
pub proof fn lemma_listed_domain_blocked(domains: Seq<Seq<char>>, url: Seq<char>, k: int)
    requires
        0 <= k < domains.len(),
        !(seq_starts_with(url, "petal://"@) || seq_starts_with(url, "file://"@)),
        extract_host_spec(url) matches Some(h) && h != "localhost"@ && !seq_starts_with(h, "127.0.0.1"@)
            && (h == domains[k] || seq_ends_with(h, "."@ + domains[k])),
    ensures
        blocks_spec(domains, url),
{
}

} // verus!
