//! Managed web sessions: which pages a recipe may open, what of a link may
//! leave the page, what input an action accepts, and the page scripts that
//! fill and click for the Agent.
use vstd::prelude::*;
use crate::authz_rules::{utf8_len, utf8_len_within};
use crate::direct_policy::{AgentWebRecipeKind, AgentWebRecipePolicy};
use crate::authz_envelope::lower_hex_digit;
use crate::http_path::is_ascii_text;
use crate::http_safety::{contains_secret_representation, spec_contains_secret};
use crate::json::{json_view, JsonValue, JsonView};
use crate::policy::opt_view;
use crate::text::{concat, copy_string, from_chars, str_eq, to_chars};

verus! {

broadcast use vstd::string::group_string_axioms;

/// What the library reads of a parsed URL.
#[derive(Debug)]
pub struct UrlParts {
    /// The scheme, lower-cased.
    pub scheme: String,
    /// The ASCII serialization of a (scheme, host, port) origin; `None` for an
    /// opaque origin, which equals no other.
    pub origin: Option<String>,
    pub host: Option<String>,
    /// The port, or the scheme's default port.
    pub port: Option<u16>,
    pub username: String,
    pub password: Option<String>,
    /// The percent-encoded path.
    pub path: String,
    pub query: Option<String>,
    pub fragment: Option<String>,
}

/// A parsed URL as a mathematical value.
pub struct UrlView {
    pub scheme: Seq<char>,
    pub origin: Option<Seq<char>>,
    pub host: Option<Seq<char>>,
    pub port: Option<u16>,
    pub username: Seq<char>,
    pub password: Option<Seq<char>>,
    pub path: Seq<char>,
    pub query: Option<Seq<char>>,
    pub fragment: Option<Seq<char>>,
}

impl View for UrlParts {
    type V = UrlView;

    open spec fn view(&self) -> UrlView {
        UrlView {
            scheme: self.scheme@,
            origin: opt_view(self.origin),
            host: opt_view(self.host),
            port: self.port,
            username: self.username@,
            password: opt_view(self.password),
            path: self.path@,
            query: opt_view(self.query),
            fragment: opt_view(self.fragment),
        }
    }
}

/// The URL that `url::Url::parse` reads from `text`, if it reads one.
pub uninterp spec fn parsed_url(text: Seq<char>) -> Option<UrlView>;

/// The URL that `url::Url::join` reads from `input` against the base URL
/// that `url::Url::parse` reads from `base`, if both succeed.
pub uninterp spec fn joined_url(base: Seq<char>, input: Seq<char>) -> Option<UrlView>;

/// Facts of every parsed URL that the url crate documents: the path is a
/// percent-encoded ASCII string and an origin is serialized in ASCII.
pub open spec fn url_text_is_ascii(u: UrlView) -> bool {
    &&& is_ascii_text(u.path)
    &&& (u.origin matches Some(o) ==> is_ascii_text(o))
}

/// Parses an absolute URL (`url::Url::parse`).
///
/// Trusted: the result is the one named by `parsed_url`; its path and origin
/// are ASCII, as the url crate documents.
#[verifier::external_body]
pub(crate) fn parse_url(text: &str) -> (r: Option<UrlParts>)
    ensures
        match r {
            Some(u) => parsed_url(text@) == Some(u@) && url_text_is_ascii(u@),
            None => parsed_url(text@) is None,
        },
{
    let u = url::Url::parse(text).ok()?;
    let origin = match u.origin() {
        url::Origin::Opaque(_) => None,
        tuple => Some(tuple.ascii_serialization()),
    };
    Some(UrlParts { scheme: u.scheme().to_owned(), origin, host: u.host_str().map(str::to_owned),
        port: u.port_or_known_default(), username: u.username().to_owned(), password: u.password().map(str::to_owned),
        path: u.path().to_owned(), query: u.query().map(str::to_owned), fragment: u.fragment().map(str::to_owned) })
}

/// Resolves `input` against the base URL `base` (`url::Url::parse`, then `url::Url::join`).
///
/// Trusted: the result is the one named by `joined_url`; its path and origin
/// are ASCII, as the url crate documents.
#[verifier::external_body]
pub(crate) fn join_url(base: &str, input: &str) -> (r: Option<UrlParts>)
    ensures
        match r {
            Some(u) => joined_url(base@, input@) == Some(u@) && url_text_is_ascii(u@),
            None => joined_url(base@, input@) is None,
        },
{
    let u = url::Url::parse(base).ok()?.join(input).ok()?;
    let origin = match u.origin() {
        url::Origin::Opaque(_) => None,
        tuple => Some(tuple.ascii_serialization()),
    };
    Some(UrlParts { scheme: u.scheme().to_owned(), origin, host: u.host_str().map(str::to_owned),
        port: u.port_or_known_default(), username: u.username().to_owned(), password: u.password().map(str::to_owned),
        path: u.path().to_owned(), query: u.query().map(str::to_owned), fragment: u.fragment().map(str::to_owned) })
}

// ----------------------------------------------------------------------------
// Origins
// ----------------------------------------------------------------------------

/// Two URLs have the same (non-opaque) origin.
pub open spec fn same_origin(a: UrlView, b: UrlView) -> bool {
    a.origin is Some && a.origin == b.origin
}

/// `allowed` parses to a URL with the origin of `u`.
pub open spec fn allows_origin(allowed: Seq<char>, u: UrlView) -> bool {
    match parsed_url(allowed) {
        Some(a) => same_origin(a, u),
        None => false,
    }
}

/// An HTTPS URL whose origin is the origin of one of the allowed origins.
pub open spec fn spec_origin_allowed(u: UrlView, origins: Seq<String>) -> bool {
    &&& u.scheme == "https"@
    &&& exists|i: int| 0 <= i < origins.len() && #[trigger] allows_origin(origins[i]@, u)
}

fn opt_string_eq(a: &Option<String>, b: &Option<String>) -> (r: bool)
    ensures
        r == (opt_view(*a) == opt_view(*b)),
{
    match (a, b) {
        (Some(x), Some(y)) => str_eq(x.as_str(), y.as_str()),
        (None, None) => true,
        _ => false,
    }
}

/// Whether a URL is HTTPS and has the origin of one of the allowed origins.
pub fn origin_allowed(url: &UrlParts, origins: &Vec<String>) -> (r: bool)
    ensures
        r == spec_origin_allowed(url@, origins@),
{
    proof {
        reveal_strlit("https");
    }
    if !str_eq(url.scheme.as_str(), "https") {
        return false;
    }
    let mut i: usize = 0;
    while i < origins.len()
        invariant
            i <= origins.len(),
            url.scheme@ == "https"@,
            forall|k: int| 0 <= k < i ==> !#[trigger] allows_origin(origins@[k]@, url@),
        decreases origins.len() - i,
    {
        match parse_url(origins[i].as_str()) {
            Some(allowed) => {
                if allowed.origin.is_some() && opt_string_eq(&allowed.origin, &url.origin) {
                    assert(allows_origin(origins@[i as int]@, url@));
                    return true;
                }
            },
            None => {},
        }
        i += 1;
    }
    false
}

/// The page a recipe opens: its path resolved against the session's first
/// origin, refused unless it is HTTPS without query or fragment and keeps an
/// allowed origin.
pub open spec fn spec_approved_url(origin: Seq<char>, path: Seq<char>, origins: Seq<String>) -> Result<UrlView, Seq<char>> {
    match parsed_url(origin) {
        None => Err("web-policy-invalid"@),
        Some(_) => match joined_url(origin, path) {
            None => Err("web-policy-invalid"@),
            Some(u) => if u.scheme != "https"@ || u.query is Some || u.fragment is Some || !spec_origin_allowed(u, origins) {
                Err("web-policy-denied"@)
            } else {
                Ok(u)
            },
        },
    }
}

/// The page that a recipe path opens (see `spec_approved_url`).
pub fn approved_url(origin: &str, path: &str, origins: &Vec<String>) -> (r: Result<UrlParts, &'static str>)
    ensures
        match spec_approved_url(origin@, path@, origins@) {
            Ok(u) => r matches Ok(v) && v@ == u,
            Err(code) => r matches Err(c) && c@ == code,
        },
{
    proof {
        reveal_strlit("web-policy-invalid");
        reveal_strlit("web-policy-denied");
        reveal_strlit("https");
    }
    if parse_url(origin).is_none() {
        return Err("web-policy-invalid");
    }
    let url = match join_url(origin, path) {
        Some(u) => u,
        None => return Err("web-policy-invalid"),
    };
    if !str_eq(url.scheme.as_str(), "https") || url.query.is_some() || url.fragment.is_some() || !origin_allowed(&url, origins) {
        return Err("web-policy-denied");
    }
    Ok(url)
}

/// The most of a link that may leave a page.
pub const MAX_HREF_CHARS: usize = 4096;

/// A link as it may leave a page: its origin and path only, at most
/// `MAX_HREF_CHARS` characters; refused unless it parses and keeps an allowed origin.
pub open spec fn spec_sanitize_href(value: Seq<char>, origins: Seq<String>) -> Result<Seq<char>, Seq<char>> {
    match parsed_url(value) {
        None => Err("web-extract-failed"@),
        Some(u) => if !spec_origin_allowed(u, origins) {
            Err("web-origin-denied"@)
        } else {
            let safe = u.origin->0 + u.path;
            Ok(if safe.len() > MAX_HREF_CHARS { safe.take(MAX_HREF_CHARS as int) } else { safe })
        },
    }
}

/// Strips a link down to its origin and path (see `spec_sanitize_href`).
/// The text is ASCII, so its characters are its bytes.
pub fn sanitize_href(value: &str, origins: &Vec<String>) -> (r: Result<String, &'static str>)
    ensures
        match spec_sanitize_href(value@, origins@) {
            Ok(s) => r matches Ok(v) && v@ == s && is_ascii_text(v@),
            Err(code) => r matches Err(c) && c@ == code,
        },
{
    proof {
        reveal_strlit("web-extract-failed");
        reveal_strlit("web-origin-denied");
    }
    let url = match parse_url(value) {
        Some(u) => u,
        None => return Err("web-extract-failed"),
    };
    if !origin_allowed(&url, origins) {
        return Err("web-origin-denied");
    }
    let origin = match &url.origin {
        Some(o) => o,
        None => return Err("web-origin-denied"),
    };
    let safe = concat(origin.as_str(), url.path.as_str());
    let mut chars = to_chars(safe.as_str());
    if chars.len() > MAX_HREF_CHARS {
        chars.truncate(MAX_HREF_CHARS);
    }
    let r = from_chars(&chars);
    proof {
        assert(is_ascii_text(safe@)) by {
            assert forall|i: int| 0 <= i < safe@.len() implies crate::http_path::is_ascii_char(#[trigger] safe@[i]) by {
                if i < origin@.len() {
                    assert(safe@[i] == origin@[i]);
                } else {
                    assert(safe@[i] == url.path@[i - origin@.len()]);
                }
            }
        }
    }
    Ok(r)
}

// ----------------------------------------------------------------------------
// Protected steps and action input
// ----------------------------------------------------------------------------

/// The kind of a protected value that a managed web session fills in.
#[derive(Clone, Copy, Debug, PartialEq, Eq, Structural)]
pub enum AgentManagedWebProtectedKind {
    Totp,
    EmailOtp,
    RecoveryCode,
}

/// The name of a protected kind.
pub fn protected_kind_name(kind: AgentManagedWebProtectedKind) -> (r: &'static str)
    ensures
        r@ == match kind {
            AgentManagedWebProtectedKind::Totp => "totp"@,
            AgentManagedWebProtectedKind::EmailOtp => "email-otp"@,
            AgentManagedWebProtectedKind::RecoveryCode => "recovery-code"@,
        },
{
    match kind {
        AgentManagedWebProtectedKind::Totp => "totp",
        AgentManagedWebProtectedKind::EmailOtp => "email-otp",
        AgentManagedWebProtectedKind::RecoveryCode => "recovery-code",
    }
}

/// The recipe kind that fills a protected kind.
pub fn recipe_kind(kind: AgentManagedWebProtectedKind) -> (r: AgentWebRecipeKind)
    ensures
        r == match kind {
            AgentManagedWebProtectedKind::Totp => AgentWebRecipeKind::Totp,
            AgentManagedWebProtectedKind::EmailOtp => AgentWebRecipeKind::EmailOtp,
            AgentManagedWebProtectedKind::RecoveryCode => AgentWebRecipeKind::RecoveryCode,
        },
{
    match kind {
        AgentManagedWebProtectedKind::Totp => AgentWebRecipeKind::Totp,
        AgentManagedWebProtectedKind::EmailOtp => AgentWebRecipeKind::EmailOtp,
        AgentManagedWebProtectedKind::RecoveryCode => AgentWebRecipeKind::RecoveryCode,
    }
}

/// Every input of the recipe is present in `input` as a string of at most
/// its maximum length in UTF-8 bytes.
pub open spec fn inputs_present(recipe: AgentWebRecipePolicy, input: JsonValue) -> bool {
    forall|i: int| 0 <= i < recipe.inputs@.len() ==> input_ok(input, #[trigger] recipe.inputs@[i])
}

/// The input is present as a string of at most its maximum length in UTF-8 bytes.
pub open spec fn input_ok(input: JsonValue, field: crate::direct_policy::AgentWebInputPolicy) -> bool {
    match input.spec_get_str(field.name@) {
        Some(v) => utf8_len(v) <= field.max_length,
        None => false,
    }
}

/// The input of an action recipe: an object with exactly as many members as
/// the recipe has inputs, each input a bounded string. The result lists the
/// inputs in the recipe's order.
pub open spec fn spec_action_input(recipe: AgentWebRecipePolicy, input: JsonValue) -> Option<Seq<(Seq<char>, JsonView)>> {
    match input {
        JsonValue::Object(entries) => if entries.len() == recipe.inputs.len() && inputs_present(recipe, input) {
            Some(Seq::new(recipe.inputs@.len(), |i: int| (recipe.inputs@[i].name@, JsonView::String(input.spec_get_str(recipe.inputs@[i].name@)->0))))
        } else {
            None
        },
        _ => None,
    }
}

/// Checks the input of an action recipe (see `spec_action_input`).
pub fn validate_action_input(recipe: &AgentWebRecipePolicy, input: &JsonValue) -> (r: Result<Vec<(String, JsonValue)>, &'static str>)
    ensures
        match spec_action_input(*recipe, *input) {
            Some(es) => r matches Ok(out) && json_view(JsonValue::Object(out)) == JsonView::Object(es),
            None => r matches Err(c) && c@ == "invalid-parameters"@,
        },
{
    proof {
        reveal_strlit("invalid-parameters");
    }
    let entries = match input {
        JsonValue::Object(entries) => entries,
        _ => return Err("invalid-parameters"),
    };
    if entries.len() != recipe.inputs.len() {
        return Err("invalid-parameters");
    }
    let mut out: Vec<(String, JsonValue)> = Vec::new();
    let mut i: usize = 0;
    while i < recipe.inputs.len()
        invariant
            i <= recipe.inputs.len(),
            *input == JsonValue::Object(*entries),
            entries.len() == recipe.inputs.len(),
            out@.len() == i,
            forall|k: int| 0 <= k < i ==> input_ok(*input, #[trigger] recipe.inputs@[k]),
            forall|k: int| 0 <= k < i ==> (#[trigger] out@[k]).0@ == recipe.inputs@[k].name@
                && json_view(out@[k].1) == JsonView::String(input.spec_get_str(recipe.inputs@[k].name@)->0),
        decreases recipe.inputs.len() - i,
    {
        proof {
            reveal_strlit("invalid-parameters");
        }
        let field = &recipe.inputs[i];
        let value = match input.get_str(field.name.as_str()) {
            Some(v) => v,
            None => {
                assert(!input_ok(*input, recipe.inputs@[i as int]));
                return Err("invalid-parameters");
            },
        };
        if !utf8_len_within(value, field.max_length as usize) {
            assert(!input_ok(*input, recipe.inputs@[i as int]));
            return Err("invalid-parameters");
        }
        let key = field.name.clone();
        out.push((key, JsonValue::String(copy_string(value))));
        i += 1;
    }
    let r = out;
    proof {
        let es = spec_action_input(*recipe, *input)->0;
        if let JsonView::Object(a) = json_view(JsonValue::Object(r)) {
            assert forall|k: int| 0 <= k < a.len() implies a[k] == es[k] by {
                assert(a[k] == (r@[k].0@, json_view(r@[k].1)));
            }
            assert(a =~= es);
        }
    }
    Ok(r)
}

/// Whether extracted page content shows one of the session's secrets, as
/// itself, as Base64 or as lower-case hexadecimal.
pub fn contains_canary(bytes: &[u8], canaries: &Vec<String>) -> (r: bool)
    ensures
        r == spec_contains_secret(bytes@, canaries@),
{
    contains_secret_representation(bytes, canaries)
}

// ----------------------------------------------------------------------------
// Page scripts
// ----------------------------------------------------------------------------

/// What serde_json writes for one character of a string: `"` and `\`
/// after a backslash, the control characters U+0008, U+0009, U+000A,
/// U+000C and U+000D as `\b`, `\t`, `\n`, `\f` and `\r`, the other
/// characters below U+0020 as `\u00` and two lower-case hexadecimal digits,
/// and every other character as it is.
pub open spec fn json_escape(c: char) -> Seq<char> {
    let u = c as u32;
    if c == '"' {
        seq!['\\', '"']
    } else if c == '\\' {
        seq!['\\', '\\']
    } else if u == 8 {
        seq!['\\', 'b']
    } else if u == 9 {
        seq!['\\', 't']
    } else if u == 10 {
        seq!['\\', 'n']
    } else if u == 12 {
        seq!['\\', 'f']
    } else if u == 13 {
        seq!['\\', 'r']
    } else if u < 32 {
        seq!['\\', 'u', '0', '0', lower_hex_digit((u / 16) as int), lower_hex_digit((u % 16) as int)]
    } else {
        seq![c]
    }
}

/// The characters of a text, each escaped (see `json_escape`).
pub open spec fn json_escaped(text: Seq<char>) -> Seq<char>
    decreases text.len(),
{
    if text.len() == 0 {
        Seq::empty()
    } else {
        json_escaped(text.drop_last()) + json_escape(text.last())
    }
}

/// The JSON string literal of a text, as `serde_json::to_string` writes it
/// for a `str`: the escaped text between double quotes. Writing a string
/// does not fail, so it is always there.
pub open spec fn json_string_literal(text: Seq<char>) -> Option<Seq<char>> {
    Some(seq!['"'] + json_escaped(text) + seq!['"'])
}

/// A lower-case hexadecimal digit.
pub open spec fn lower_hex_char(c: char) -> bool {
    let u = c as u32;
    (48 <= u <= 57) || (97 <= u <= 102)
}

/// The inside of a JSON string literal: characters other than a double
/// quote, a backslash or a control character, and backslash escapes (a quote,
/// a backslash, `b`, `t`, `n`, `f` or `r` after it, or `u` and four
/// hexadecimal digits). Nothing in it ends the literal or breaks its line.
pub open spec fn json_string_body(s: Seq<char>) -> bool
    decreases s.len(),
{
    if s.len() == 0 {
        true
    } else if s[0] == '\\' {
        if s.len() >= 2 && (s[1] == '"' || s[1] == '\\' || s[1] == 'b' || s[1] == 't' || s[1] == 'n' || s[1] == 'f'
            || s[1] == 'r') {
            json_string_body(s.skip(2))
        } else if s.len() >= 6 && s[1] == 'u' && lower_hex_char(s[2]) && lower_hex_char(s[3]) && lower_hex_char(s[4])
            && lower_hex_char(s[5]) {
            json_string_body(s.skip(6))
        } else {
            false
        }
    } else {
        s[0] != '"' && s[0] as u32 >= 32 && json_string_body(s.skip(1))
    }
}

proof fn lemma_string_body_concat(a: Seq<char>, b: Seq<char>)
    requires
        json_string_body(a),
        json_string_body(b),
    ensures
        json_string_body(a + b),
    decreases a.len(),
{
    if a.len() == 0 {
        assert(a + b =~= b);
    } else {
        let s = a + b;
        assert(s[0] == a[0]);
        let k: int = if a[0] == '\\' {
            if a.len() >= 2 && (a[1] == '"' || a[1] == '\\' || a[1] == 'b' || a[1] == 't' || a[1] == 'n' || a[1] == 'f'
                || a[1] == 'r') {
                2
            } else {
                6
            }
        } else {
            1
        };
        assert(k <= a.len());
        assert forall|j: int| 0 <= j < k implies s[j] == a[j] by {}
        lemma_string_body_concat(a.skip(k), b);
        assert(s.skip(k) =~= a.skip(k) + b);
    }
}

proof fn lemma_escape_is_string_body(c: char)
    ensures
        json_string_body(json_escape(c)),
{
    let e = json_escape(c);
    let u = c as u32;
    let none = Seq::<char>::empty();
    assert(json_string_body(none));
    if c == '"' || c == '\\' || u == 8 || u == 9 || u == 10 || u == 12 || u == 13 {
        assert(e.len() == 2 && e[0] == '\\');
        assert(e.skip(2) =~= none);
        assert(e[1] == '"' || e[1] == '\\' || e[1] == 'b' || e[1] == 't' || e[1] == 'n' || e[1] == 'f' || e[1] == 'r');
    } else if u < 32 {
        let hi = (u / 16) as int;
        let lo = (u % 16) as int;
        assert(lower_hex_char(lower_hex_digit(hi)));
        assert(lower_hex_char(lower_hex_digit(lo)));
        assert(lower_hex_char('0'));
        assert(e.len() == 6 && e[0] == '\\' && e[1] == 'u');
        assert(e[2] == '0' && e[3] == '0' && e[4] == lower_hex_digit(hi) && e[5] == lower_hex_digit(lo));
        assert(e.skip(6) =~= none);
    } else {
        assert(e.len() == 1 && e[0] == c);
        assert(e.skip(1) =~= none);
    }
}

proof fn lemma_escaped_is_string_body(text: Seq<char>)
    ensures
        json_string_body(json_escaped(text)),
    decreases text.len(),
{
    if text.len() > 0 {
        lemma_escaped_is_string_body(text.drop_last());
        lemma_escape_is_string_body(text.last());
        lemma_string_body_concat(json_escaped(text.drop_last()), json_escape(text.last()));
    }
}

/// A text written as a JSON string literal stays inside it: the literal is
/// a double quote, a string body that nothing in ends the literal or breaks
/// its line (see `json_string_body`), and a closing double quote.
pub proof fn law_quoted_text_stays_inside_its_literal(text: Seq<char>)
    ensures
        ({
            let lit = json_string_literal(text)->0;
            &&& lit.len() >= 2
            &&& lit[0] == '"'
            &&& lit.last() == '"'
            &&& json_string_body(lit.subrange(1, lit.len() - 1))
        }),
{
    lemma_escaped_is_string_body(text);
    let lit = json_string_literal(text)->0;
    assert(lit.subrange(1, lit.len() - 1) =~= json_escaped(text));
}

/// The JSON string literal of a text (`serde_json::to_string`).
///
/// Trusted: the result is the literal that `json_string_literal` states,
/// after serde_json's escape table (`format_escaped_str_contents`).
#[verifier::external_body]
pub(crate) fn json_quote(text: &str) -> (r: Option<String>)
    ensures
        r is Some,
        opt_view(r) == json_string_literal(text@),
{
    serde_json::to_string(text).ok()
}

/// The literal that a script receives for an optional text: the text, or
/// the empty text when there is none.
pub open spec fn script_literal(value: Option<Seq<char>>) -> Option<Seq<char>> {
    json_string_literal(match value {
        Some(v) => v,
        None => Seq::empty(),
    })
}

/// The script text with the first `n` literals placed between its pieces.
pub open spec fn template_prefix(pieces: Seq<Seq<char>>, literals: Seq<Seq<char>>, n: nat) -> Seq<char>
    decreases n,
{
    if n == 0 {
        pieces[0]
    } else {
        template_prefix(pieces, literals, (n - 1) as nat) + literals[n - 1] + pieces[n as int]
    }
}

/// A script built from its pieces and the literals of its values; refused
/// when a value has no JSON literal.
pub open spec fn spec_script(pieces: Seq<Seq<char>>, values: Seq<Option<Seq<char>>>) -> Result<Seq<char>, Seq<char>> {
    if forall|i: int| 0 <= i < values.len() ==> (#[trigger] script_literal(values[i])) is Some {
        Ok(template_prefix(pieces, Seq::new(values.len(), |i: int| script_literal(values[i])->0), values.len()))
    } else {
        Err("web-policy-invalid"@)
    }
}

/// The JSON literal of an optional text for a script.
fn js(value: Option<&str>) -> (r: Result<String, &'static str>)
    ensures
        match script_literal(match value { Some(v) => Some(v@), None => None }) {
            Some(l) => r matches Ok(s) && s@ == l,
            None => r matches Err(c) && c@ == "web-policy-invalid"@,
        },
{
    proof {
        reveal_strlit("web-policy-invalid");
        reveal_strlit("");
        assert(""@ =~= Seq::<char>::empty());
    }
    let text = match value {
        Some(v) => v,
        None => "",
    };
    match json_quote(text) {
        Some(s) => Ok(s),
        None => Err("web-policy-invalid"),
    }
}

/// The text of an optional string slice.
pub open spec fn ref_opt_view(o: Option<&str>) -> Option<Seq<char>> {
    match o {
        Some(v) => Some(v@),
        None => None,
    }
}

/// Places the JSON literals of `values` between the `pieces` of a script.
fn render_script(pieces: &Vec<&'static str>, values: &Vec<Option<&str>>) -> (r: Result<String, &'static str>)
    requires
        pieces@.len() == values@.len() + 1,
    ensures
        match spec_script(pieces@.map_values(|p: &str| p@), values@.map_values(|v: Option<&str>| ref_opt_view(v))) {
            Ok(t) => r matches Ok(s) && s@ == t,
            Err(code) => r matches Err(c) && c@ == code,
        },
{
    let ghost ps = pieces@.map_values(|p: &str| p@);
    let ghost vs = values@.map_values(|v: Option<&str>| ref_opt_view(v));
    let mut literals: Vec<String> = Vec::new();
    let mut i: usize = 0;
    while i < values.len()
        invariant
            i <= values.len(),
            vs == values@.map_values(|v: Option<&str>| ref_opt_view(v)),
            literals@.len() == i,
            forall|k: int| 0 <= k < i ==> (#[trigger] script_literal(vs[k])) == Some(literals@[k]@),
        decreases values.len() - i,
    {
        match js(values[i]) {
            Ok(l) => {
                literals.push(l);
            },
            Err(c) => {
                assert(script_literal(vs[i as int]) is None);
                return Err(c);
            },
        }
        i += 1;
    }
    let ghost lits = Seq::new(vs.len(), |k: int| script_literal(vs[k])->0);
    let mut out = copy_string(pieces[0]);
    let mut k: usize = 0;
    while k < literals.len()
        invariant
            k <= literals.len(),
            literals@.len() == vs.len(),
            pieces@.len() == vs.len() + 1,
            ps == pieces@.map_values(|p: &str| p@),
            lits == Seq::new(vs.len(), |k: int| script_literal(vs[k])->0),
            forall|m: int| 0 <= m < vs.len() ==> literals@[m]@ == #[trigger] lits[m],
            out@ == template_prefix(ps, lits, k as nat),
        decreases literals.len() - k,
    {
        let with_literal = concat(out.as_str(), literals[k].as_str());
        out = concat(with_literal.as_str(), pieces[k + 1]);
        k += 1;
    }
    Ok(out)
}

pub const LOGIN_SCRIPT_0: &'static str = "(()=>{try{const userSel=";
pub const LOGIN_SCRIPT_1: &'static str = ";const passSel=";
pub const LOGIN_SCRIPT_2: &'static str = ";const submitSel=";
pub const LOGIN_SCRIPT_3: &'static str = ";const username=";
pub const LOGIN_SCRIPT_4: &'static str = ";const password=";
pub const LOGIN_SCRIPT_5: &'static str = ";const user=document.querySelector(userSel);const pass=document.querySelector(passSel);const submit=document.querySelector(submitSel);if(!user||!pass||!submit)return{status:'unavailable'};const set=(el,value)=>{const owner=el instanceof HTMLTextAreaElement?HTMLTextAreaElement.prototype:HTMLInputElement.prototype;const setter=Object.getOwnPropertyDescriptor(owner,'value')?.set;if(!setter)return false;setter.call(el,value);el.dispatchEvent(new Event('input',{bubbles:true}));el.dispatchEvent(new Event('change',{bubbles:true}));return true;};if(!set(user,username)||!set(pass,password))return{status:'unavailable'};submit.click();return{status:'submitted'};}catch(_){return{status:'script-error'};}})()";
pub const RESULT_SCRIPT_0: &'static str = "(()=>{try{const success=document.querySelector(";
pub const RESULT_SCRIPT_1: &'static str = ");if(success)return{status:'success'};const failureSel=";
pub const RESULT_SCRIPT_2: &'static str = ";if(failureSel&&document.querySelector(failureSel))return{status:'rejected'};return{status:'pending'};}catch(_){return{status:'script-error'};}})()";
pub const FILL_SCRIPT_0: &'static str = "(()=>{try{const field=document.querySelector(";
pub const FILL_SCRIPT_1: &'static str = ");const submit=document.querySelector(";
pub const FILL_SCRIPT_2: &'static str = ");if(!field||!submit)return{status:'missing'};const owner=field instanceof HTMLTextAreaElement?HTMLTextAreaElement.prototype:HTMLInputElement.prototype;const setter=Object.getOwnPropertyDescriptor(owner,'value')?.set;if(!setter)return{status:'missing'};setter.call(field,";
pub const FILL_SCRIPT_3: &'static str = ");field.dispatchEvent(new Event('input',{bubbles:true}));field.dispatchEvent(new Event('change',{bubbles:true}));submit.click();return{status:'submitted'};}catch(_){return{status:'script-error'};}})()";
pub const CLICK_SCRIPT_0: &'static str = "(()=>{try{const target=document.querySelector(";
pub const CLICK_SCRIPT_1: &'static str = ");if(!target)return{status:'missing'};target.click();return{status:'clicked'};}catch(_){return{status:'script-error'};}})()";
pub const READY_SCRIPT: &'static str = "(()=>{try{return{status:document.readyState==='complete'?'ready':'pending'};}catch(_){return{status:'script-error'};}})()";

/// The script that fills the login form and submits it.
pub fn login_script(recipe: &AgentWebRecipePolicy, username: &str, password: &str) -> (r: Result<String, &'static str>)
    ensures
        recipe.username_selector is None || recipe.password_selector is None || recipe.submit_selector is None
            ==> (r matches Err(c) && c@ == "web-policy-invalid"@),
        recipe.username_selector is Some && recipe.password_selector is Some && recipe.submit_selector is Some ==>
            match spec_script(
                seq![LOGIN_SCRIPT_0@, LOGIN_SCRIPT_1@, LOGIN_SCRIPT_2@, LOGIN_SCRIPT_3@, LOGIN_SCRIPT_4@, LOGIN_SCRIPT_5@],
                seq![opt_view(recipe.username_selector), opt_view(recipe.password_selector), opt_view(recipe.submit_selector), Some(username@), Some(password@)],
            ) {
                Ok(t) => r matches Ok(s) && s@ == t,
                Err(code) => r matches Err(c) && c@ == code,
            },
{
    proof {
        reveal_strlit("web-policy-invalid");
    }
    let (user_sel, pass_sel, submit_sel) = match (&recipe.username_selector, &recipe.password_selector, &recipe.submit_selector) {
        (Some(u), Some(p), Some(s)) => (u.as_str(), p.as_str(), s.as_str()),
        _ => return Err("web-policy-invalid"),
    };
    let pieces = vec![LOGIN_SCRIPT_0, LOGIN_SCRIPT_1, LOGIN_SCRIPT_2, LOGIN_SCRIPT_3, LOGIN_SCRIPT_4, LOGIN_SCRIPT_5];
    let values = vec![Some(user_sel), Some(pass_sel), Some(submit_sel), Some(username), Some(password)];
    let r = render_script(&pieces, &values);
    proof {
        assert(pieces@.map_values(|p: &str| p@) =~= seq![LOGIN_SCRIPT_0@, LOGIN_SCRIPT_1@, LOGIN_SCRIPT_2@, LOGIN_SCRIPT_3@, LOGIN_SCRIPT_4@, LOGIN_SCRIPT_5@]);
        assert(values@.map_values(|v: Option<&str>| ref_opt_view(v)) =~= seq![opt_view(recipe.username_selector), opt_view(recipe.password_selector), opt_view(recipe.submit_selector), Some(username@), Some(password@)]);
    }
    r
}

/// The script that tells whether the page is fully loaded.
pub fn ready_script() -> (r: String)
    ensures
        r@ == READY_SCRIPT@,
{
    copy_string(READY_SCRIPT)
}

/// The script that reports whether a recipe succeeded, was rejected, or is pending.
pub fn recipe_result_script(recipe: &AgentWebRecipePolicy) -> (r: Result<String, &'static str>)
    ensures
        recipe.success_selector is None ==> (r matches Err(c) && c@ == "web-policy-invalid"@),
        recipe.success_selector is Some ==>
            match spec_script(
                seq![RESULT_SCRIPT_0@, RESULT_SCRIPT_1@, RESULT_SCRIPT_2@],
                seq![opt_view(recipe.success_selector), opt_view(recipe.failure_selector)],
            ) {
                Ok(t) => r matches Ok(s) && s@ == t,
                Err(code) => r matches Err(c) && c@ == code,
            },
{
    proof {
        reveal_strlit("web-policy-invalid");
    }
    let success = match &recipe.success_selector {
        Some(s) => s.as_str(),
        None => return Err("web-policy-invalid"),
    };
    let failure: Option<&str> = match &recipe.failure_selector {
        Some(f) => Some(f.as_str()),
        None => None,
    };
    let pieces = vec![RESULT_SCRIPT_0, RESULT_SCRIPT_1, RESULT_SCRIPT_2];
    let values = vec![Some(success), failure];
    let r = render_script(&pieces, &values);
    proof {
        assert(pieces@.map_values(|p: &str| p@) =~= seq![RESULT_SCRIPT_0@, RESULT_SCRIPT_1@, RESULT_SCRIPT_2@]);
        assert(values@.map_values(|v: Option<&str>| ref_opt_view(v)) =~= seq![opt_view(recipe.success_selector), opt_view(recipe.failure_selector)]);
    }
    r
}

/// The script that fills a protected value into the recipe's field and submits.
pub fn protected_fill_script(recipe: &AgentWebRecipePolicy, value: &str) -> (r: Result<String, &'static str>)
    ensures
        match spec_script(
            seq![FILL_SCRIPT_0@, FILL_SCRIPT_1@, FILL_SCRIPT_2@, FILL_SCRIPT_3@],
            seq![opt_view(recipe.selector), opt_view(recipe.submit_selector), Some(value@)],
        ) {
            Ok(t) => r matches Ok(s) && s@ == t,
            Err(code) => r matches Err(c) && c@ == code,
        },
{
    let selector: Option<&str> = match &recipe.selector {
        Some(s) => Some(s.as_str()),
        None => None,
    };
    let submit: Option<&str> = match &recipe.submit_selector {
        Some(s) => Some(s.as_str()),
        None => None,
    };
    let pieces = vec![FILL_SCRIPT_0, FILL_SCRIPT_1, FILL_SCRIPT_2, FILL_SCRIPT_3];
    let values = vec![selector, submit, Some(value)];
    let r = render_script(&pieces, &values);
    proof {
        assert(pieces@.map_values(|p: &str| p@) =~= seq![FILL_SCRIPT_0@, FILL_SCRIPT_1@, FILL_SCRIPT_2@, FILL_SCRIPT_3@]);
        assert(values@.map_values(|v: Option<&str>| ref_opt_view(v)) =~= seq![opt_view(recipe.selector), opt_view(recipe.submit_selector), Some(value@)]);
    }
    r
}

/// The script that clicks the recipe's target.
pub fn click_script(recipe: &AgentWebRecipePolicy) -> (r: Result<String, &'static str>)
    ensures
        match spec_script(seq![CLICK_SCRIPT_0@, CLICK_SCRIPT_1@], seq![opt_view(recipe.selector)]) {
            Ok(t) => r matches Ok(s) && s@ == t,
            Err(code) => r matches Err(c) && c@ == code,
        },
{
    let selector: Option<&str> = match &recipe.selector {
        Some(s) => Some(s.as_str()),
        None => None,
    };
    let pieces = vec![CLICK_SCRIPT_0, CLICK_SCRIPT_1];
    let values = vec![selector];
    let r = render_script(&pieces, &values);
    proof {
        assert(pieces@.map_values(|p: &str| p@) =~= seq![CLICK_SCRIPT_0@, CLICK_SCRIPT_1@]);
        assert(values@.map_values(|v: Option<&str>| ref_opt_view(v)) =~= seq![opt_view(recipe.selector)]);
    }
    r
}

} // verus!
