//! The configuration parser and security linter: a naive key=value parser
//! and a small hardcoded rule table checked against a schema.

use vstd::prelude::*;
use vstd::string::{StrSliceExecFns, StringExecFns};
use crate::text::{
    push_line, spec_starts_with, spec_trim, starts_with_str, str_eq, trim,
};
use crate::numbers::{dec_digits, parse_usize, spec_parse_int, usize_to_string};

verus! {

/// Index of the first occurrence of `c` in `s`, or `s.len()` if absent.
pub open spec fn find_char(s: Seq<char>, c: char) -> int
    decreases s.len(),
{
    if s.len() == 0 {
        0
    } else if s[0] == c {
        0
    } else {
        1 + find_char(s.drop_first(), c)
    }
}

/// `find_char` is the index with nothing equal to `c` before it: the first
/// occurrence, or the length when `c` is absent.
pub proof fn lemma_find_char_at(s: Seq<char>, c: char, i: int)
    requires
        0 <= i <= s.len(),
        forall|j: int| 0 <= j < i ==> s[j] != c,
        i < s.len() ==> s[i] == c,
    ensures
        find_char(s, c) == i,
    decreases s.len(),
{
    if s.len() > 0 && i > 0 {
        let rest = s.drop_first();
        assert(forall|j: int| 0 <= j < i - 1 ==> rest[j] != c);
        lemma_find_char_at(rest, c, i - 1);
    }
}

/// A line as `str::lines` yields it: a carriage return just before the
/// newline is stripped.
pub open spec fn strip_cr(l: Seq<char>) -> Seq<char> {
    if l.len() > 0 && l.last() == '\r' {
        l.drop_last()
    } else {
        l
    }
}

/// The lines of `s`, split at newlines, each with a trailing carriage return
/// stripped; a final line without a newline terminator is kept as is.
pub open spec fn spec_lines(s: Seq<char>) -> Seq<Seq<char>>
    decreases s.len(),
{
    if s.len() == 0 {
        Seq::empty()
    } else {
        let i = find_char(s, '\n');
        if 0 <= i < s.len() {
            seq![strip_cr(s.subrange(0, i))] + spec_lines(s.subrange(i + 1, s.len() as int))
        } else {
            seq![s]
        }
    }
}

/// Split text into lines as the parser consumes them.
pub fn split_lines(s: &str) -> (r: Vec<String>)
    ensures
        r.deep_view() == spec_lines(s@),
{
    let len = s.unicode_len();
    let mut r: Vec<String> = Vec::new();
    let mut start: usize = 0;
    let mut i: usize = 0;
    proof {
        assert(r.deep_view() =~= Seq::<Seq<char>>::empty());
        assert(s@.subrange(0, len as int) =~= s@);
    }
    while i < len
        invariant
            len == s@.len() <= usize::MAX,
            start <= i <= len,
            forall|j: int| start <= j < i ==> s@[j] != '\n',
            spec_lines(s@) == r.deep_view() + spec_lines(s@.subrange(start as int, len as int)),
        decreases len - i,
    {
        if s.get_char(i) == '\n' {
            let ghost seg = s@.subrange(start as int, len as int);
            proof {
                assert(forall|j: int| 0 <= j < i - start ==> seg[j] != '\n');
                assert(seg[i - start] == '\n');
                lemma_find_char_at(seg, '\n', i - start);
                assert(seg.subrange(0, i - start) =~= s@.subrange(start as int, i as int));
                assert(seg.subrange(i - start + 1, seg.len() as int) =~= s@.subrange(
                    i + 1,
                    len as int,
                ));
            }
            let line = if i > start && s.get_char(i - 1) == '\r' {
                proof {
                    let piece = s@.subrange(start as int, i as int);
                    assert(piece.last() == '\r');
                    assert(piece.drop_last() =~= s@.subrange(start as int, i - 1));
                }
                s.substring_char(start, i - 1)
            } else {
                proof {
                    let piece = s@.subrange(start as int, i as int);
                    assert(strip_cr(piece) == piece);
                }
                s.substring_char(start, i)
            };
            push_line(&mut r, String::from_str(line));
            proof {
                assert(r.deep_view() =~= (r.deep_view().drop_last()).push(line@));
            }
            start = i + 1;
        }
        i += 1;
    }
    if start < len {
        let ghost seg = s@.subrange(start as int, len as int);
        proof {
            lemma_find_char_at(seg, '\n', seg.len() as int);
        }
        let line = s.substring_char(start, len);
        push_line(&mut r, String::from_str(line));
    } else {
        proof {
            assert(s@.subrange(start as int, len as int).len() == 0);
            assert(r.deep_view() + Seq::<Seq<char>>::empty() =~= r.deep_view());
        }
    }
    proof {
        assert(spec_lines(s@) =~= r.deep_view());
    }
    r
}

/// A value with surrounding quotes removed after trimming: a pair of double
/// or single quotes around at least the quotes themselves.
pub open spec fn spec_clean_value(v: Seq<char>) -> Seq<char> {
    let t = spec_trim(v);
    if t.len() >= 2 && ((t[0] == '"' && t.last() == '"') || (t[0] == '\'' && t.last() == '\'')) {
        t.subrange(1, t.len() - 1)
    } else {
        t
    }
}

/// Trim a raw value and strip one pair of surrounding quotes, if any.
pub fn clean_value(value: &str) -> (r: String)
    ensures
        r@ == spec_clean_value(value@),
{
    let t = trim(value);
    let len = t.unicode_len();
    if len >= 2 {
        let c0 = t.get_char(0);
        let cl = t.get_char(len - 1);
        if (c0 == '"' && cl == '"') || (c0 == '\'' && cl == '\'') {
            return String::from_str(t.substring_char(1, len - 1));
        }
    }
    String::from_str(t)
}

/// What one configuration line contributes: a key/value pair, or nothing for
/// blank lines, comments, and lines without `=`.
pub open spec fn spec_parse_line(line: Seq<char>) -> Option<(Seq<char>, Seq<char>)> {
    let t = spec_trim(line);
    if t.len() == 0 || t[0] == '#' {
        None
    } else {
        let i = find_char(t, '=');
        if 0 <= i < t.len() {
            Some((spec_trim(t.subrange(0, i)), spec_clean_value(t.subrange(i + 1, t.len() as int))))
        } else {
            None
        }
    }
}

/// Parse one configuration line into a trimmed key and a cleaned value.
pub fn parse_line(line: &str) -> (r: Option<(String, String)>)
    ensures
        ({
            match r {
                Some(kv) => spec_parse_line(line@) == Some((kv.0@, kv.1@)),
                None => spec_parse_line(line@) is None,
            }
        }),
{
    let t = trim(line);
    let len = t.unicode_len();
    if len == 0 {
        return None;
    }
    if t.get_char(0) == '#' {
        return None;
    }
    let mut i: usize = 0;
    while i < len
        invariant
            len == t@.len() <= usize::MAX,
            i <= len,
            t@ == spec_trim(line@),
            t@.len() != 0,
            t@[0] != '#',
            forall|j: int| 0 <= j < i ==> t@[j] != '=',
        decreases len - i,
    {
        if t.get_char(i) == '=' {
            proof {
                lemma_find_char_at(t@, '=', i as int);
            }
            let key = String::from_str(trim(t.substring_char(0, i)));
            let value = clean_value(t.substring_char(i + 1, len));
            return Some((key, value));
        }
        i += 1;
    }
    proof {
        lemma_find_char_at(t@, '=', len as int);
    }
    None
}

/// The key/value pairs contributed by a sequence of lines, in order.
pub open spec fn spec_parse_entries(lines: Seq<Seq<char>>) -> Seq<(Seq<char>, Seq<char>)>
    decreases lines.len(),
{
    if lines.len() == 0 {
        Seq::empty()
    } else {
        let rest = spec_parse_entries(lines.drop_first());
        match spec_parse_line(lines[0]) {
            Some(kv) => seq![kv] + rest,
            None => rest,
        }
    }
}

/// What parsing a whole configuration text yields.
pub open spec fn spec_parse_config(content: Seq<char>) -> Seq<(Seq<char>, Seq<char>)> {
    spec_parse_entries(spec_lines(content))
}

/// Parse a configuration text of key=value lines, skipping blank lines,
/// comments, and malformed lines.
pub fn parse_config(content: &str) -> (r: Vec<(String, String)>)
    ensures
        r.deep_view() == spec_parse_config(content@),
{
    let lines = split_lines(content);
    let ghost lines_view = lines.deep_view();
    let mut r: Vec<(String, String)> = Vec::new();
    let mut i: usize = 0;
    let n = lines.len();
    proof {
        assert(r.deep_view() =~= Seq::<(Seq<char>, Seq<char>)>::empty());
        assert(lines_view.subrange(0, n as int) =~= lines_view);
    }
    while i < n
        invariant
            n == lines@.len(),
            lines_view == lines.deep_view(),
            i <= n,
            spec_parse_entries(lines_view) == r.deep_view() + spec_parse_entries(
                lines_view.subrange(i as int, n as int),
            ),
        decreases n - i,
    {
        let ghost tail = lines_view.subrange(i as int, n as int);
        proof {
            assert(tail[0] == lines_view[i as int]);
            assert(tail.drop_first() =~= lines_view.subrange(i + 1, n as int));
        }
        match parse_line(lines[i].as_str()) {
            Some(kv) => {
                let ghost pre = r.deep_view();
                let ghost kv_view = (kv.0@, kv.1@);
                r.push(kv);
                proof {
                    assert(r.deep_view().len() == pre.len() + 1);
                    assert forall|k: int| 0 <= k < pre.len() implies r.deep_view()[k] == pre[k] by {}
                    assert(r.deep_view()[pre.len() as int] == kv_view);
                    assert(r.deep_view() =~= pre.push(kv_view));
                    assert(seq![kv_view] + spec_parse_entries(tail.drop_first())
                        =~= spec_parse_entries(tail));
                    assert(pre.push(kv_view) + spec_parse_entries(tail.drop_first()) =~= pre + (
                    seq![kv_view] + spec_parse_entries(tail.drop_first())));
                }
            },
            None => {},
        }
        i += 1;
    }
    proof {
        assert(lines_view.subrange(n as int, n as int).len() == 0);
        assert(r.deep_view() + Seq::<(Seq<char>, Seq<char>)>::empty() =~= r.deep_view());
    }
    r
}

/// Parse a schema text; schema files use the same key=value line format as
/// configuration files.
pub fn parse_schema(content: &str) -> (r: Vec<(String, String)>)
    ensures
        r.deep_view() == spec_parse_config(content@),
{
    parse_config(content)
}

/// Some schema entry carries this key.
pub open spec fn schema_has_key(schema: Seq<(Seq<char>, Seq<char>)>, key: Seq<char>) -> bool {
    exists|i: int| 0 <= i < schema.len() && (#[trigger] schema[i]).0 == key
}

/// The value of the first configuration entry with this key, if any.
pub open spec fn spec_config_lookup(config: Seq<(Seq<char>, Seq<char>)>, key: Seq<char>) -> Option<
    Seq<char>,
>
    decreases config.len(),
{
    if config.len() == 0 {
        None
    } else if config[0].0 == key {
        Some(config[0].1)
    } else {
        spec_config_lookup(config.drop_first(), key)
    }
}

/// Warning for a configuration key absent from the schema.
pub open spec fn msg_unknown_key(key: Seq<char>) -> Seq<char> {
    "Config key '"@ + key + "' not found in schema. Consider defining its security posture."@
}

/// Warning for a URL setting that does not use HTTPS.
pub open spec fn msg_not_https(key: Seq<char>) -> Seq<char> {
    "Insecure setting: '"@ + key + "' should use HTTPS (starts with 'https://')."@
}

/// Warning for a debug switch left on.
pub open spec fn msg_debug_on(key: Seq<char>) -> Seq<char> {
    "Insecure setting: '"@ + key + "' should be 'false' in production."@
}

/// Warning for a default password left in place.
pub open spec fn msg_default_password(key: Seq<char>) -> Seq<char> {
    "Critical: '"@ + key + "' uses default password 'password123'. Change immediately!"@
}

/// Warning for a log level other than INFO.
pub open spec fn msg_log_level(key: Seq<char>) -> Seq<char> {
    "Logging level: '"@ + key + "' is not 'INFO'. Consider 'INFO' for standard operation."@
}

/// Warning for a length setting below the recommended minimum.
pub open spec fn msg_weak_length(key: Seq<char>, len: int) -> Seq<char> {
    "Weak setting: '"@ + key + "' has length "@ + dec_digits(len) + ". Recommended minimum: 8."@
}

/// Warning for a length rule applied to a non-numeric value.
pub open spec fn msg_not_integer(key: Seq<char>, value: Seq<char>) -> Seq<char> {
    "Schema rule for '"@ + key + "' expects an integer length, but config value '"@ + value
        + "' is not a valid integer."@
}

/// Warning for a value that differs from the schema rule verbatim.
pub open spec fn msg_mismatch(key: Seq<char>, value: Seq<char>, rule: Seq<char>) -> Seq<char> {
    "Config key '"@ + key + "' value '"@ + value + "' does not match schema rule '"@ + rule
        + "'."@
}

/// Warning for a schema key missing from the configuration.
pub open spec fn msg_missing_key(key: Seq<char>) -> Seq<char> {
    "Missing configuration key: '"@ + key + "' as defined in schema."@
}

/// What one schema rule says about the configured value, if anything.
pub open spec fn spec_rule_warning(key: Seq<char>, rule: Seq<char>, value: Seq<char>) -> Option<
    Seq<char>,
> {
    if rule == "https://"@ {
        if !spec_starts_with(value, "https://"@) {
            Some(msg_not_https(key))
        } else {
            None
        }
    } else if rule == "false"@ {
        if value == "true"@ {
            Some(msg_debug_on(key))
        } else {
            None
        }
    } else if rule == "no_default_password"@ {
        if value == "password123"@ {
            Some(msg_default_password(key))
        } else {
            None
        }
    } else if rule == "INFO"@ {
        if value != "INFO"@ {
            Some(msg_log_level(key))
        } else {
            None
        }
    } else if rule == "min_length_8"@ {
        match spec_parse_int(value, false, 0, usize::MAX as int) {
            Some(n) => if n < 8 {
                Some(msg_weak_length(key, n))
            } else {
                None
            },
            None => Some(msg_not_integer(key, value)),
        }
    } else {
        if value != rule {
            Some(msg_mismatch(key, value, rule))
        } else {
            None
        }
    }
}

/// What one schema entry contributes: a rule warning on the configured
/// value, or a missing-key warning.
pub open spec fn spec_schema_entry_warning(
    config: Seq<(Seq<char>, Seq<char>)>,
    key: Seq<char>,
    rule: Seq<char>,
) -> Option<Seq<char>> {
    match spec_config_lookup(config, key) {
        Some(value) => spec_rule_warning(key, rule, value),
        None => Some(msg_missing_key(key)),
    }
}

/// Warnings for configuration keys the schema does not know, in order.
pub open spec fn spec_unknown_warnings(
    config: Seq<(Seq<char>, Seq<char>)>,
    schema: Seq<(Seq<char>, Seq<char>)>,
) -> Seq<Seq<char>>
    decreases config.len(),
{
    if config.len() == 0 {
        Seq::empty()
    } else {
        let rest = spec_unknown_warnings(config.drop_first(), schema);
        if !schema_has_key(schema, config[0].0) {
            seq![msg_unknown_key(config[0].0)] + rest
        } else {
            rest
        }
    }
}

/// Warnings from applying each schema entry to the configuration, in order.
pub open spec fn spec_schema_warnings(
    config: Seq<(Seq<char>, Seq<char>)>,
    schema: Seq<(Seq<char>, Seq<char>)>,
) -> Seq<Seq<char>>
    decreases schema.len(),
{
    if schema.len() == 0 {
        Seq::empty()
    } else {
        let rest = spec_schema_warnings(config, schema.drop_first());
        match spec_schema_entry_warning(config, schema[0].0, schema[0].1) {
            Some(w) => seq![w] + rest,
            None => rest,
        }
    }
}

/// Every warning the linter reports: unknown keys first, then the schema
/// rules in schema order.
pub open spec fn spec_validate(
    config: Seq<(Seq<char>, Seq<char>)>,
    schema: Seq<(Seq<char>, Seq<char>)>,
) -> Seq<Seq<char>> {
    spec_unknown_warnings(config, schema) + spec_schema_warnings(config, schema)
}

/// Whether any schema entry carries this key.
fn schema_contains_key(schema: &Vec<(String, String)>, key: &String) -> (r: bool)
    ensures
        r == schema_has_key(schema.deep_view(), key@),
{
    let mut i: usize = 0;
    let n = schema.len();
    while i < n
        invariant
            n == schema@.len(),
            i <= n,
            forall|j: int| 0 <= j < i ==> (#[trigger] schema.deep_view()[j]).0 != key@,
        decreases n - i,
    {
        let entry = &schema[i];
        if str_eq(entry.0.as_str(), key.as_str()) {
            proof {
                assert(schema.deep_view()[i as int].0 == key@);
            }
            return true;
        }
        i += 1;
    }
    false
}

/// The value of the first configuration entry with this key, if any.
fn config_lookup(config: &Vec<(String, String)>, key: &String) -> (r: Option<String>)
    ensures
        ({
            match r {
                Some(v) => spec_config_lookup(config.deep_view(), key@) == Some(v@),
                None => spec_config_lookup(config.deep_view(), key@) is None,
            }
        }),
{
    let ghost config_view = config.deep_view();
    let mut i: usize = 0;
    let n = config.len();
    proof {
        assert(config_view.subrange(0, n as int) =~= config_view);
    }
    while i < n
        invariant
            n == config@.len(),
            config_view == config.deep_view(),
            i <= n,
            spec_config_lookup(config_view, key@) == spec_config_lookup(
                config_view.subrange(i as int, n as int),
                key@,
            ),
        decreases n - i,
    {
        proof {
            let tail = config_view.subrange(i as int, n as int);
            assert(tail[0] == config_view[i as int]);
            assert(tail.drop_first() =~= config_view.subrange(i + 1, n as int));
        }
        let entry = &config[i];
        if str_eq(entry.0.as_str(), key.as_str()) {
            return Some(entry.1.clone());
        }
        i += 1;
    }
    proof {
        assert(config_view.subrange(n as int, n as int).len() == 0);
    }
    None
}

/// Build `lit1 + mid + lit2`.
fn build3(lit1: &str, mid: &str, lit2: &str) -> (r: String)
    ensures
        r@ == lit1@ + mid@ + lit2@,
{
    let mut r = String::from_str(lit1);
    r.append(mid);
    r.append(lit2);
    proof {
        assert(r@ =~= lit1@ + mid@ + lit2@);
    }
    r
}

/// Build `lit1 + mid1 + lit2 + mid2 + lit3`.
fn build5(lit1: &str, mid1: &str, lit2: &str, mid2: &str, lit3: &str) -> (r: String)
    ensures
        r@ == lit1@ + mid1@ + lit2@ + mid2@ + lit3@,
{
    let mut r = String::from_str(lit1);
    r.append(mid1);
    r.append(lit2);
    r.append(mid2);
    r.append(lit3);
    proof {
        assert(r@ =~= lit1@ + mid1@ + lit2@ + mid2@ + lit3@);
    }
    r
}

/// Build `lit1 + mid1 + lit2 + mid2 + lit3 + mid3 + lit4`.
fn build7(lit1: &str, mid1: &str, lit2: &str, mid2: &str, lit3: &str, mid3: &str, lit4: &str) -> (r:
    String)
    ensures
        r@ == lit1@ + mid1@ + lit2@ + mid2@ + lit3@ + mid3@ + lit4@,
{
    let mut r = String::from_str(lit1);
    r.append(mid1);
    r.append(lit2);
    r.append(mid2);
    r.append(lit3);
    r.append(mid3);
    r.append(lit4);
    proof {
        assert(r@ =~= lit1@ + mid1@ + lit2@ + mid2@ + lit3@ + mid3@ + lit4@);
    }
    r
}

/// What one schema rule says about the configured value, if anything.
fn rule_warning(key: &String, rule: &String, value: &String) -> (r: Option<String>)
    ensures
        ({
            match r {
                Some(w) => spec_rule_warning(key@, rule@, value@) == Some(w@),
                None => spec_rule_warning(key@, rule@, value@) is None,
            }
        }),
{
    if str_eq(rule.as_str(), "https://") {
        if !starts_with_str(value.as_str(), "https://") {
            Some(build3("Insecure setting: '", key.as_str(), "' should use HTTPS (starts with 'https://')."))
        } else {
            None
        }
    } else if str_eq(rule.as_str(), "false") {
        if str_eq(value.as_str(), "true") {
            Some(build3("Insecure setting: '", key.as_str(), "' should be 'false' in production."))
        } else {
            None
        }
    } else if str_eq(rule.as_str(), "no_default_password") {
        if str_eq(value.as_str(), "password123") {
            Some(build3("Critical: '", key.as_str(), "' uses default password 'password123'. Change immediately!"))
        } else {
            None
        }
    } else if str_eq(rule.as_str(), "INFO") {
        if !str_eq(value.as_str(), "INFO") {
            Some(build3("Logging level: '", key.as_str(), "' is not 'INFO'. Consider 'INFO' for standard operation."))
        } else {
            None
        }
    } else if str_eq(rule.as_str(), "min_length_8") {
        match parse_usize(value.as_str()) {
            Some(n) => {
                if n < 8 {
                    let digits = usize_to_string(n);
                    Some(build5(
                        "Weak setting: '",
                        key.as_str(),
                        "' has length ",
                        digits.as_str(),
                        ". Recommended minimum: 8.",
                    ))
                } else {
                    None
                }
            },
            None => {
                Some(build5(
                    "Schema rule for '",
                    key.as_str(),
                    "' expects an integer length, but config value '",
                    value.as_str(),
                    "' is not a valid integer.",
                ))
            },
        }
    } else {
        if !str_eq(value.as_str(), rule.as_str()) {
            Some(build7(
                "Config key '",
                key.as_str(),
                "' value '",
                value.as_str(),
                "' does not match schema rule '",
                rule.as_str(),
                "'.",
            ))
        } else {
            None
        }
    }
}

/// Validate a configuration against a schema: flag unknown configuration
/// keys, then apply each schema rule in order. Returns the warnings as the
/// report lists them.
pub fn validate_config(
    config: &Vec<(String, String)>,
    schema: &Vec<(String, String)>,
    _verbose: bool,
) -> (warnings: Vec<String>)
    ensures
        warnings.deep_view() == spec_validate(config.deep_view(), schema.deep_view()),
{
    let ghost config_view = config.deep_view();
    let ghost schema_view = schema.deep_view();
    let mut warnings: Vec<String> = Vec::new();
    let mut i: usize = 0;
    let n = config.len();
    proof {
        assert(warnings.deep_view() =~= Seq::<Seq<char>>::empty());
        assert(config_view.subrange(0, n as int) =~= config_view);
    }
    while i < n
        invariant
            n == config@.len(),
            config_view == config.deep_view(),
            schema_view == schema.deep_view(),
            i <= n,
            spec_unknown_warnings(config_view, schema_view) == warnings.deep_view()
                + spec_unknown_warnings(config_view.subrange(i as int, n as int), schema_view),
        decreases n - i,
    {
        proof {
            let tail = config_view.subrange(i as int, n as int);
            assert(tail[0] == config_view[i as int]);
            assert(tail.drop_first() =~= config_view.subrange(i + 1, n as int));
        }
        let entry = &config[i];
        if !schema_contains_key(schema, &entry.0) {
            let w = build3(
                "Config key '",
                entry.0.as_str(),
                "' not found in schema. Consider defining its security posture.",
            );
            push_line(&mut warnings, w);
        }
        i += 1;
    }
    proof {
        assert(config_view.subrange(n as int, n as int).len() == 0);
        assert(warnings.deep_view() + Seq::<Seq<char>>::empty() =~= warnings.deep_view());
        assert(warnings.deep_view() == spec_unknown_warnings(config_view, schema_view));
    }
    let ghost unknown = warnings.deep_view();
    let mut i: usize = 0;
    let n = schema.len();
    proof {
        assert(schema_view.subrange(0, n as int) =~= schema_view);
    }
    while i < n
        invariant
            n == schema@.len(),
            config_view == config.deep_view(),
            schema_view == schema.deep_view(),
            i <= n,
            spec_validate(config_view, schema_view) == warnings.deep_view()
                + spec_schema_warnings(config_view, schema_view.subrange(i as int, n as int)),
        decreases n - i,
    {
        proof {
            let tail = schema_view.subrange(i as int, n as int);
            assert(tail[0] == schema_view[i as int]);
            assert(tail.drop_first() =~= schema_view.subrange(i + 1, n as int));
        }
        let entry = &schema[i];
        match config_lookup(config, &entry.0) {
            Some(value) => {
                match rule_warning(&entry.0, &entry.1, &value) {
                    Some(w) => {
                        push_line(&mut warnings, w);
                    },
                    None => {},
                }
            },
            None => {
                let w = build3(
                    "Missing configuration key: '",
                    entry.0.as_str(),
                    "' as defined in schema.",
                );
                push_line(&mut warnings, w);
            },
        }
        i += 1;
    }
    proof {
        assert(schema_view.subrange(n as int, n as int).len() == 0);
        assert(warnings.deep_view() + Seq::<Seq<char>>::empty() =~= warnings.deep_view());
    }
    warnings
}

/// The warning lines of the report, each introduced by a dash.
pub open spec fn spec_report_lines(warnings: Seq<Seq<char>>) -> Seq<char>
    decreases warnings.len(),
{
    if warnings.len() == 0 {
        Seq::empty()
    } else {
        "- "@ + warnings[0] + "\n"@ + spec_report_lines(warnings.drop_first())
    }
}

/// The whole linter report: a fixed line when nothing was found, otherwise a
/// header followed by one line per warning.
pub open spec fn spec_render_report(warnings: Seq<Seq<char>>) -> Seq<char> {
    if warnings.len() == 0 {
        "No security warnings or misconfigurations found.\n"@
    } else {
        "Security Linter Report:\n"@ + spec_report_lines(warnings)
    }
}

/// Render the linter report as a single text.
pub fn render_report(warnings: &Vec<String>) -> (r: String)
    ensures
        r@ == spec_render_report(warnings.deep_view()),
{
    let ghost warnings_view = warnings.deep_view();
    if warnings.len() == 0 {
        return String::from_str("No security warnings or misconfigurations found.\n");
    }
    let mut r = String::from_str("Security Linter Report:\n");
    let mut i: usize = 0;
    let n = warnings.len();
    proof {
        assert(warnings_view.subrange(0, n as int) =~= warnings_view);
    }
    while i < n
        invariant
            n == warnings@.len(),
            warnings_view == warnings.deep_view(),
            i <= n,
            spec_render_report(warnings_view) == r@ + spec_report_lines(
                warnings_view.subrange(i as int, n as int),
            ),
        decreases n - i,
    {
        proof {
            let tail = warnings_view.subrange(i as int, n as int);
            assert(tail[0] == warnings_view[i as int]);
            assert(tail.drop_first() =~= warnings_view.subrange(i + 1, n as int));
        }
        let entry = &warnings[i];
        r.append("- ");
        r.append(entry.as_str());
        r.append("\n");
        proof {
            assert(spec_render_report(warnings_view) =~= r@ + spec_report_lines(
                warnings_view.subrange(i + 1, n as int),
            ));
        }
        i += 1;
    }
    proof {
        assert(warnings_view.subrange(n as int, n as int).len() == 0);
        assert(r@ + Seq::<char>::empty() =~= r@);
    }
    r
}

} // verus!
