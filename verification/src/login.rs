//! Logging in to a container registry through a browser.
use vstd::prelude::*;
use crate::network::address;
use crate::network::address::{Ipv4Addr, Ipv6Addr};
use crate::random::random_bytes;
use crate::text;
use crate::text::{
    chars_of, concat2, concat3, contains_text, eq_ignoring_ascii_case, str_eq, take_before,
    to_ascii_lower, to_decimal, trim, trim_end_char, trim_start_char, without_prefix,
};

verus! {

/// The text of bytes in the base64 alphabet for URLs, without padding.
pub uninterp spec fn url_safe_text(b: Seq<u8>) -> Seq<char>;

/// `base64::engine::general_purpose::URL_SAFE_NO_PAD.encode`: the text depends on the bytes
/// alone, and different bytes have different texts.
#[verifier::external_body]
fn encode_url_safe(b: &[u8]) -> (r: String)
    requires
        b@.len() <= 0x1000_0000,
    ensures
        r@ == url_safe_text(b@),
        forall|c: Seq<u8>| #[trigger] url_safe_text(c) == r@ ==> c == b@,
{
    base64::Engine::encode(&base64::engine::general_purpose::URL_SAFE_NO_PAD, b)
}

/// The characters of a user code: no letter or digit that is easily taken for another.
pub open spec fn code_alphabet() -> Seq<char> {
    "ABCDEFGHJKLMNPQRSTUVWXYZ23456789"@
}

/// The character of a user code that a random byte stands for.
pub open spec fn code_char(b: u8) -> char {
    code_alphabet()[b as int % 32]
}

/// The user code that random bytes stand for: two groups of four characters.
pub open spec fn code_of(b: Seq<u8>) -> Seq<char> {
    b.take(4).map_values(|x: u8| code_char(x)) + "-"@ + b.skip(4).map_values(|x: u8| code_char(x))
}

/// The user code that random bytes stand for.
pub fn user_code(bytes: &[u8; 8]) -> (r: String)
    ensures
        r@ == code_of(bytes@),
{
    proof {
        reveal_strlit("ABCDEFGHJKLMNPQRSTUVWXYZ23456789");
        reveal_strlit("-");
    }
    let alphabet = chars_of("ABCDEFGHJKLMNPQRSTUVWXYZ23456789");
    let ghost b = bytes@;
    let mut r: String = "".to_owned();
    proof {
        reveal_strlit("");
        assert(r@ =~= b.take(0).map_values(|x: u8| code_char(x)));
    }
    for i in 0..4usize
        invariant
            b == bytes@,
            b.len() == 8,
            alphabet@ == code_alphabet(),
            alphabet@.len() == 32,
            r@ == b.take(i as int).map_values(|x: u8| code_char(x)),
    {
        r.push(alphabet[bytes[i] as usize % 32]);
        assert(r@ =~= b.take(i + 1).map_values(|x: u8| code_char(x)));
    }
    r.append("-");
    let ghost first = b.take(4).map_values(|x: u8| code_char(x)) + "-"@;
    assert(r@ =~= first + b.subrange(4, 4).map_values(|x: u8| code_char(x)));
    for i in 4..8usize
        invariant
            b == bytes@,
            b.len() == 8,
            alphabet@ == code_alphabet(),
            alphabet@.len() == 32,
            r@ == first + b.subrange(4, i as int).map_values(|x: u8| code_char(x)),
    {
        r.push(alphabet[bytes[i] as usize % 32]);
        assert(r@ =~= first + b.subrange(4, i + 1).map_values(|x: u8| code_char(x)));
    }
    assert(b.subrange(4, 8) =~= b.skip(4));
    r
}

/// A fresh user code.
pub fn generate_user_code() -> (r: String)
    ensures
        exists|b: Seq<u8>| b.len() == 8 && r@ == #[trigger] code_of(b),
{
    let bytes: [u8; 8] = random_bytes();
    user_code(&bytes)
}

/// The state that random bytes stand for.
pub fn state_text(bytes: &[u8; 32]) -> (r: String)
    ensures
        r@ == url_safe_text(bytes@),
        forall|c: Seq<u8>| #[trigger] url_safe_text(c) == r@ ==> c == bytes@,
{
    encode_url_safe(bytes.as_slice())
}

/// A fresh state, which the answer of the browser is to bring back.
pub fn generate_state() -> (r: String)
    ensures
        exists|b: Seq<u8>| b.len() == 32 && r@ == #[trigger] url_safe_text(b),
{
    let bytes: [u8; 32] = random_bytes();
    state_text(&bytes)
}

/// Whether an IPv4 address is a loopback address or one of the private ranges.
pub open spec fn private4(a: Ipv4Addr) -> bool {
    let b = a.bits as int;
    ||| b / 0x100_0000 == 127
    ||| b / 0x100_0000 == 10
    ||| b / 0x10_0000 == 0xac1
    ||| b / 0x1_0000 == 0xc0a8
}

/// Whether an IPv6 address is the loopback address or unique to a site (`fc00::/7`).
pub open spec fn private6(a: Ipv6Addr) -> bool {
    ||| a.bits == 1
    ||| a.bits as int / 0x0200_0000_0000_0000_0000_0000_0000_0000 == 0x7e
}

/// The host without white space around it and without brackets.
pub open spec fn bare_host(host: Seq<char>) -> Seq<char> {
    text::drop_trailing(
        text::drop_leading(text::trimmed(host), text::only('[')),
        text::only(']'),
    )
}

/// Whether a host is `localhost` or an address that is not reached from outside.
pub open spec fn private_host(host: Seq<char>) -> bool {
    if text::lowered(host) == text::lowered("localhost"@) {
        true
    } else {
        match address::ipv4_of(bare_host(host)) {
            Some(a) => private4(a),
            None => match address::ipv6_of(bare_host(host)) {
                Some(a) => private6(a),
                None => false,
            },
        }
    }
}

/// Whether a host is `localhost` or an address that is not reached from outside.
pub fn is_private_ip(host: &str) -> (r: bool)
    ensures
        r == private_host(host@),
{
    if eq_ignoring_ascii_case(host, "localhost") {
        return true;
    }
    let bare = trim_end_char(trim_start_char(trim(host).as_str(), '[').as_str(), ']');
    match Ipv4Addr::parse(bare.as_str()) {
        Some(a) => {
            let b: u32 = a.bits;
            b / 0x100_0000 == 127 || b / 0x100_0000 == 10 || b / 0x10_0000 == 0xac1 || b / 0x1_0000
                == 0xc0a8
        },
        None => match Ipv6Addr::parse(bare.as_str()) {
            Some(a) => a.bits == 1 || a.bits / 0x0200_0000_0000_0000_0000_0000_0000_0000 == 0x7e,
            None => false,
        },
    }
}

/// The host in an address without a scheme: what stands in brackets, or else before a port.
pub open spec fn host_of(s: Seq<char>) -> Seq<char> {
    if s.len() > 0 && s[0] == '[' {
        text::before_char(s.skip(1), ']')
    } else {
        text::before_char(s, ':')
    }
}

/// The URL of a server: an address without a scheme gets `http` for a private host and `https`
/// for any other. An empty address has none.
pub open spec fn server_url(given: Seq<char>) -> Option<Seq<char>> {
    let s = text::trimmed(given);
    let bare = text::drop_trailing(s, text::only('/'));
    if s.len() == 0 {
        None
    } else if text::occurs(s, "://"@) {
        Some(bare)
    } else if private_host(host_of(s)) {
        Some("http"@ + "://"@ + bare)
    } else {
        Some("https"@ + "://"@ + bare)
    }
}

/// The URL of a server from what a user gave.
pub fn parse_server_url(s: &str) -> (r: Result<String, String>)
    ensures
        match r {
            Ok(u) => server_url(s@) == Some(u@),
            Err(e) => server_url(s@) is None && e@ == "server URL must not be empty"@,
        },
{
    let given = trim(s);
    if given.as_str().is_empty() {
        return Err("server URL must not be empty".to_owned());
    }
    let bare = trim_end_char(given.as_str(), '/');
    proof {
        reveal_strlit("://");
        reveal_strlit("[");
    }
    if contains_text(given.as_str(), "://") {
        return Ok(bare);
    }
    let ghost g = given@;
    let host = match without_prefix(given.as_str(), "[") {
        Some(rest) => {
            assert(g.take(1) == "["@);
            assert(g[0] == g.take(1)[0]);
            assert(rest@ =~= g.skip(1));
            take_before(rest.as_str(), ']')
        },
        None => {
            assert(g[0] != '[') by {
                if g[0] == '[' {
                    assert("["@ =~= g.take(1));
                }
            }
            take_before(given.as_str(), ':')
        },
    };
    if is_private_ip(host.as_str()) {
        Ok(concat3("http", "://", bare.as_str()))
    } else {
        Ok(concat3("https", "://", bare.as_str()))
    }
}

/// What follows the scheme of a URL; all of it when it has none.
pub open spec fn after_scheme(s: Seq<char>) -> Seq<char> {
    if "https://"@.is_prefix_of(s) {
        s.skip("https://"@.len() as int)
    } else if "http://"@.is_prefix_of(s) {
        s.skip("http://"@.len() as int)
    } else {
        s
    }
}

/// The registry in a text: its host and port in lower case, without a scheme, path, query or
/// fragment. It may be empty.
pub open spec fn registry_host(input: Seq<char>) -> Seq<char> {
    text::lowered(
        text::before_char(
            text::before_char(
                text::before_char(after_scheme(text::trimmed(input)), '/'),
                '?',
            ),
            '#',
        ),
    )
}

/// Normalizes the host of a registry: lower case, without a scheme, path or query.
pub fn normalize_registry_host(input: &str) -> (r: Result<String, String>)
    ensures
        match r {
            Ok(h) => registry_host(input@).len() > 0 && h@ == registry_host(input@),
            Err(e) => registry_host(input@).len() == 0 && e@ == "registry host must not be empty"@,
        },
{
    let given = trim(input);
    let rest = match without_prefix(given.as_str(), "https://") {
        Some(t) => t,
        None => match without_prefix(given.as_str(), "http://") {
            Some(t) => t,
            None => given,
        },
    };
    let host = take_before(rest.as_str(), '/');
    let host = take_before(host.as_str(), '?');
    let host = take_before(host.as_str(), '#');
    if host.as_str().is_empty() {
        return Err("registry host must not be empty".to_owned());
    }
    Ok(to_ascii_lower(host.as_str()))
}

/// The page on which a user logs in.
pub fn login_url(server: &str, code: &str, port: u16, state: &str) -> (r: String)
    ensures
        r@ == server@ + "/api/cli/login?user_code="@ + code@ + "&callback_port="@ + text::decimal(
            port as nat,
        ) + "&state="@ + state@,
{
    let mut s = concat3(server, "/api/cli/login?user_code=", code);
    s.append("&callback_port=");
    s.append(to_decimal(port as u64).as_str());
    s.append("&state=");
    s.append(state);
    s
}

/// Where the code that the browser brings is exchanged for a token.
pub fn exchange_url(server: &str) -> (r: String)
    ensures
        r@ == text::drop_trailing(server@, text::only('/')) + "/api/cli/exchange"@,
{
    concat2(trim_end_char(server, '/').as_str(), "/api/cli/exchange")
}

/// Whether the answer of the browser belongs to the login: it brings back the state.
pub fn check_callback(expected: &str, state: &str) -> (r: Result<(), String>)
    ensures
        match r {
            Ok(_) => state@ == expected@,
            Err(e) => state@ != expected@ && e@ == "State mismatch – possible CSRF attack"@,
        },
{
    if str_eq(state, expected) {
        Ok(())
    } else {
        Err("State mismatch – possible CSRF attack".to_owned())
    }
}

/// What a server that refuses the exchange says.
#[derive(Debug)]
pub struct ErrorBody {
    pub error: String,
    pub message: String,
}

/// The error of an exchange that the server refused; `None` where its answer could not be read.
pub fn exchange_failed(body: Option<ErrorBody>) -> (r: String)
    ensures
        r@ == match body {
            Some(b) => b.error@ + ": "@ + b.message@,
            None => "Exchange request failed"@,
        },
{
    match body {
        Some(b) => concat3(b.error.as_str(), ": ", b.message.as_str()),
        None => "Exchange request failed".to_owned(),
    }
}

/// The registry that the exchange brought.
pub fn exchanged_registry(registry_url: &Option<String>) -> (r: Result<String, String>)
    ensures
        ({
            let url = match *registry_url {
                Some(u) => text::trimmed(u@),
                None => Seq::empty(),
            };
            match r {
                Ok(h) => url.len() > 0 && registry_host(url).len() > 0 && h@ == registry_host(url),
                Err(e) => if url.len() == 0 {
                    e@ == "exchange response missing registry_url"@
                } else {
                    registry_host(url).len() == 0 && e@ == "registry host must not be empty"@
                },
            }
        }),
{
    let url = match registry_url {
        Some(u) => trim(u.as_str()),
        None => "".to_owned(),
    };
    proof {
        reveal_strlit("");
        assert(""@ =~= Seq::<char>::empty());
    }
    if url.as_str().is_empty() {
        return Err("exchange response missing registry_url".to_owned());
    }
    normalize_registry_host(url.as_str())
}

/// A user code has nine characters: a dash in the middle, and around it letters and digits other
/// than `I`, `O`, `0` and `1`.
pub proof fn law_user_code_is_legible(b: Seq<u8>)
    requires
        b.len() == 8,
    ensures
        code_of(b).len() == 9,
        code_of(b)[4] == '-',
        forall|i: int|
            0 <= i < 9 && i != 4 ==> {
                let c = #[trigger] code_of(b)[i];
                ('A' <= c <= 'Z' || '2' <= c <= '9') && c != 'I' && c != 'O'
            },
{
    reveal_strlit("ABCDEFGHJKLMNPQRSTUVWXYZ23456789");
    reveal_strlit("-");
    assert forall|x: u8|
        {
            let c = #[trigger] code_char(x);
            ('A' <= c <= 'Z' || '2' <= c <= '9') && c != 'I' && c != 'O'
        } by {
        assert(0 <= x as int % 32 < 32);
    }
    assert forall|i: int| 0 <= i < 9 && i != 4 implies {
        let c = #[trigger] code_of(b)[i];
        ('A' <= c <= 'Z' || '2' <= c <= '9') && c != 'I' && c != 'O'
    } by {
        if i < 4 {
            assert(code_of(b)[i] == code_char(b[i]));
        } else {
            assert(code_of(b)[i] == code_char(b[i - 1]));
        }
    }
}

proof fn lemma_before(s: Seq<char>, c: char)
    ensures
        !text::before_char(s, c).contains(c),
        text::before_char(s, c).is_prefix_of(s),
        !s.contains(c) ==> text::before_char(s, c) == s,
{
    text::lemma_index_from(s, c, 0);
    let i = text::index_from(s, c, 0);
    let t = text::before_char(s, c);
    if t.contains(c) {
        let j = choose|j: int| 0 <= j < t.len() && t[j] == c;
        assert(s[j] == c);
    }
    if !s.contains(c) && i < s.len() {
        assert(s[i] == c);
    }
    assert(!s.contains(c) ==> t =~= s);
}

proof fn lemma_lowered(s: Seq<char>, c: char)
    requires
        c == '/' || c == '?' || c == '#',
        !s.contains(c),
    ensures
        !text::lowered(s).contains(c),
        text::lowered(text::lowered(s)) == text::lowered(s),
{
    let t = text::lowered(s);
    if t.contains(c) {
        let j = choose|j: int| 0 <= j < t.len() && t[j] == c;
        assert(text::ascii_lower(s[j]) == c);
        assert(s[j] == c);
    }
    assert(text::lowered(t) =~= t);
}

/// A normalized host is its own normal form, unless white space stands at one of its ends.
pub proof fn law_normalized_host_is_normal(input: Seq<char>)
    requires
        text::trimmed(registry_host(input)) == registry_host(input),
    ensures
        registry_host(registry_host(input)) == registry_host(input),
{
    let a = text::before_char(after_scheme(text::trimmed(input)), '/');
    let b = text::before_char(a, '?');
    let c = text::before_char(b, '#');
    let h = text::lowered(c);
    lemma_before(after_scheme(text::trimmed(input)), '/');
    lemma_before(a, '?');
    lemma_before(b, '#');
    assert(forall|j: int| 0 <= j < c.len() ==> c[j] == b[j] && c[j] == a[j]);
    assert(!c.contains('/')) by {
        if c.contains('/') {
            let j = choose|j: int| 0 <= j < c.len() && c[j] == '/';
            assert(a[j] == '/');
        }
    }
    assert(!c.contains('?')) by {
        if c.contains('?') {
            let j = choose|j: int| 0 <= j < c.len() && c[j] == '?';
            assert(b[j] == '?');
        }
    }
    lemma_lowered(c, '/');
    lemma_lowered(c, '?');
    lemma_lowered(c, '#');
    reveal_strlit("https://");
    reveal_strlit("http://");
    if "https://"@.is_prefix_of(h) {
        assert(h[6] == "https://"@[6]);
        assert(h.contains('/'));
    }
    if "http://"@.is_prefix_of(h) {
        assert(h[5] == "http://"@[5]);
        assert(h.contains('/'));
    }
    assert(after_scheme(h) == h);
    lemma_before(h, '/');
    lemma_before(h, '?');
    lemma_before(h, '#');
}

proof fn lemma_trailing(s: Seq<char>, p: spec_fn(char) -> bool)
    ensures
        text::drop_trailing(s, p).is_prefix_of(s),
    decreases s.len(),
{
    if s.len() > 0 && p(s.last()) {
        lemma_trailing(s.drop_last(), p);
        let t = text::drop_trailing(s.drop_last(), p);
        assert(s.take(t.len() as int) =~= s.drop_last().take(t.len() as int));
    } else {
        assert(s.take(s.len() as int) =~= s);
    }
}

/// The address of a server that names no scheme gets one, by its host; one that names a scheme is
/// kept, up to slashes at its end.
pub proof fn law_server_url_gets_a_scheme(given: Seq<char>)
    requires
        text::trimmed(given).len() > 0,
    ensures
        server_url(given) is Some,
        text::occurs(text::trimmed(given), "://"@) ==> server_url(given)->0.is_prefix_of(
            text::trimmed(given),
        ),
        !text::occurs(text::trimmed(given), "://"@) ==> if private_host(
            host_of(text::trimmed(given)),
        ) {
            "http://"@.is_prefix_of(server_url(given)->0)
        } else {
            "https://"@.is_prefix_of(server_url(given)->0)
        },
{
    lemma_trailing(text::trimmed(given), text::only('/'));
    reveal_strlit("http");
    reveal_strlit("https");
    reveal_strlit("://");
    reveal_strlit("http://");
    reveal_strlit("https://");
    assert("http"@ + "://"@ =~= "http://"@);
    assert("https"@ + "://"@ =~= "https://"@);
    let u = server_url(given)->0;
    if !text::occurs(text::trimmed(given), "://"@) {
        assert(u.take(7) =~= "http://"@ || u.take(8) =~= "https://"@);
    }
}

/// A host is in a private network when it is the local one by name, or an address of the machine
/// itself or of a private block.
pub proof fn law_private_hosts_are_known(host: &str, r: bool)
    requires
        call_ensures(is_private_ip, (host,), r),
    ensures
        host@ == "localhost"@ ==> r,
        ({
            let bare = bare_host(host@);
            &&& (address::ipv4_of(bare) matches Some(a) && ((0x7f00_0000 <= a.bits <= 0x7fff_ffff) || (
            0x0a00_0000 <= a.bits <= 0x0aff_ffff) || (0xac10_0000 <= a.bits <= 0xac1f_ffff) || (
            0xc0a8_0000 <= a.bits <= 0xc0a8_ffff))) ==> r
            &&& text::lowered(host@) != text::lowered("localhost"@) && (address::ipv4_of(
                bare,
            ) matches Some(a) && !((0x7f00_0000 <= a.bits <= 0x7fff_ffff) || (0x0a00_0000 <= a.bits
                <= 0x0aff_ffff) || (0xac10_0000 <= a.bits <= 0xac1f_ffff) || (0xc0a8_0000 <= a.bits
                <= 0xc0a8_ffff))) ==> !r
            &&& text::lowered(host@) != text::lowered("localhost"@) && address::ipv4_of(bare) is None
                && address::ipv6_of(bare) is None ==> !r
        }),
{
}

/// The answer to a login is taken only with the state that was sent.
pub proof fn law_answer_needs_the_state_that_was_sent(
    expected: &str,
    state: &str,
    r: Result<(), String>,
)
    requires
        call_ensures(check_callback, (expected, state), r),
    ensures
        r is Ok <==> expected@ == state@,
{
}

/// A registry's host is what stands between the scheme and the first slash, question mark or hash,
/// in lower case.
pub proof fn law_registry_host_is_bare(input: &str, r: Result<String, String>)
    requires
        call_ensures(normalize_registry_host, (input,), r),
    ensures
        r matches Ok(h) ==> h@.len() > 0 && !h@.contains('/') && !h@.contains('?') && !h@.contains('#')
            && h@ == text::lowered(h@),
        r matches Ok(h) ==> exists|host: Seq<char>|
            h@ == #[trigger] text::lowered(host) && (host.is_prefix_of(text::trimmed(input@)) || (
            "https://"@ + host).is_prefix_of(text::trimmed(input@)) || ("http://"@
                + host).is_prefix_of(text::trimmed(input@))),
{
    let s = text::trimmed(input@);
    let t = after_scheme(s);
    let a = text::before_char(t, '/');
    let b = text::before_char(a, '?');
    let host = text::before_char(b, '#');
    lemma_before(t, '/');
    lemma_before(a, '?');
    lemma_before(b, '#');
    text::lemma_index_from(t, '/', 0);
    text::lemma_index_from(a, '?', 0);
    text::lemma_index_from(b, '#', 0);
    assert(forall|i: int| 0 <= i < host.len() ==> #[trigger] host[i] == b[i]);
    assert(forall|i: int| 0 <= i < b.len() ==> #[trigger] b[i] == a[i]);
    assert(!host.contains('/'));
    assert(!host.contains('?'));
    assert(!host.contains('#'));
    lemma_lowered(host, '/');
    lemma_lowered(host, '?');
    lemma_lowered(host, '#');
    if r is Ok {
        assert(t.subrange(0, host.len() as int) =~= host);
        if "https://"@.is_prefix_of(s) {
            let p = "https://"@ + host;
            assert(s.subrange(0, p.len() as int) =~= p);
        } else if "http://"@.is_prefix_of(s) {
            let p = "http://"@ + host;
            assert(s.subrange(0, p.len() as int) =~= p);
        }
        assert(text::lowered(text::lowered(host)) =~= text::lowered(host));
    }
}

/// A code for the user is made of two groups of four characters, one for each byte, with a dash
/// between them.
pub proof fn law_code_has_a_character_for_each_byte(b: [u8; 8], r: String)
    requires
        call_ensures(user_code, (&b,), r),
    ensures
        r@.len() == 9,
        r@[4] == '-',
        forall|i: int|
            0 <= i < 4 ==> #[trigger] r@[i] == "ABCDEFGHJKLMNPQRSTUVWXYZ23456789"@[b@[i] as int % 32],
        forall|i: int|
            5 <= i < 9 ==> #[trigger] r@[i] == "ABCDEFGHJKLMNPQRSTUVWXYZ23456789"@[b@[i - 1] as int
                % 32],
{
    reveal_strlit("-");
}

/// A server's address is used without slashes at its end; where it has no scheme it gets one, and
/// a private host the plain one.
pub proof fn law_server_is_reached_by_a_scheme(
    given: &str,
    r: Result<String, String>,
    host: &str,
    private: bool,
)
    requires
        call_ensures(parse_server_url, (given,), r),
        call_ensures(is_private_ip, (host,), private),
        host@ == host_of(text::trimmed(given@)),
    ensures
        r is Err <==> text::trimmed(given@).len() == 0,
        r matches Ok(u) ==> {
            let s = text::trimmed(given@);
            let bare = text::drop_trailing(s, text::only('/'));
            &&& text::occurs(s, "://"@) ==> u@ == bare
            &&& !text::occurs(s, "://"@) && private ==> u@ == "http"@ + "://"@ + bare
            &&& !text::occurs(s, "://"@) && !private ==> u@ == "https"@ + "://"@ + bare
        },
{
}

} // verus!
