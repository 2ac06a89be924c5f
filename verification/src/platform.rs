//! The calls this library makes into code it does not prove: fresh ids,
//! random colours, the clock and JSON text. Each trusted item says what it
//! claims of the code it calls.
use vstd::prelude::*;
use crate::text::{append_decimal, decimal, join};

verus! {

/// `uuid::Uuid::new_v4().to_string()` yields the hyphenated lower-case
/// form: 36 characters, `-` at positions 8, 13, 18 and 23, the version
/// digit `4` at 14, and lower-case hexadecimal digits elsewhere.
pub open spec fn is_uuid_v4_text(t: Seq<char>) -> bool {
    &&& t.len() == 36
    &&& forall|i: int|
        0 <= i < 36 ==> if i == 8 || i == 13 || i == 18 || i == 23 {
            #[trigger] t[i] == '-'
        } else {
            ('0' <= t[i] <= '9') || ('a' <= t[i] <= 'f')
        }
    &&& t[14] == '4'
}

/// A fresh random id. Calls `uuid::Uuid::new_v4` and formats the result
/// with its `Display` impl; the contract claims only the text's shape (the
/// value is random), as `uuid`'s `format_hyphenated` writes it.
#[verifier::external_body]
pub fn new_id() -> (r: String)
    ensures
        is_uuid_v4_text(r@),
{
    uuid::Uuid::new_v4().to_string()
}

#[verifier::external_type_specification]
#[verifier::external_body]
pub struct ExThreadRng(rand::rngs::ThreadRng);

/// The thread-local generator (`rand::thread_rng`); nothing is claimed of it.
#[verifier::external_body]
fn thread_rng() -> rand::rngs::ThreadRng {
    rand::thread_rng()
}

/// `Rng::gen_range(lo..hi)` on `u32`: a value in `[lo, hi)`, which `rand`
/// documents; it panics on an empty range, so `lo < hi` is required.
#[verifier::external_body]
fn gen_range_u32(rng: &mut rand::rngs::ThreadRng, lo: u32, hi: u32) -> (r: u32)
    requires
        lo < hi,
    ensures
        lo <= r < hi,
{
    rand::Rng::gen_range(rng, lo..hi)
}

/// `hsl(h s% l%)`.
pub open spec fn hsl_text(h: nat, s: nat, l: nat) -> Seq<char> {
    "hsl("@ + decimal(h) + " "@ + decimal(s) + "% "@ + decimal(l) + "%)"@
}

/// A random, readable marker colour: hue 0..360, saturation 62..82 %,
/// lightness 54..68 %.
pub fn random_robot_color() -> (r: String)
    ensures
        exists|h: nat, s: nat, l: nat|
            h < 360 && 62 <= s < 82 && 54 <= l < 68 && r@ == hsl_text(h, s, l),
{
    let mut rng = thread_rng();
    let hue = gen_range_u32(&mut rng, 0, 360);
    let saturation = gen_range_u32(&mut rng, 62, 82);
    let lightness = gen_range_u32(&mut rng, 54, 68);
    robot_color_text(hue, saturation, lightness)
}

/// The CSS colour `hsl(h s% l%)`.
pub fn robot_color_text(h: u32, s: u32, l: u32) -> (r: String)
    ensures
        r@ == hsl_text(h as nat, s as nat, l as nat),
{
    let mut out = String::from_str("hsl(");
    append_decimal(&mut out, h as u64);
    out.append(" ");
    append_decimal(&mut out, s as u64);
    out.append("% ");
    append_decimal(&mut out, l as u64);
    out.append("%)");
    out
}

#[verifier::external_type_specification]
#[verifier::external_body]
pub struct ExSystemTime(std::time::SystemTime);

/// `SystemTime::now`: the clock; nothing is claimed of it.
#[verifier::external_body]
fn system_time_now() -> std::time::SystemTime {
    std::time::SystemTime::now()
}

/// `SystemTime::duration_since(UNIX_EPOCH)`, `None` for a time before the
/// epoch; nothing is claimed of the value.
#[verifier::external_body]
fn since_unix_epoch(t: std::time::SystemTime) -> Option<core::time::Duration> {
    t.duration_since(std::time::UNIX_EPOCH).ok()
}

/// `Duration::as_millis`; nothing is claimed of the value.
#[verifier::external_body]
fn duration_millis(d: core::time::Duration) -> u128 {
    d.as_millis()
}

/// Milliseconds as the server stores them: the low 64 bits of the count
/// (`as u64`), or 0 when the clock reads before the epoch.
pub fn millis_to_u64(millis: Option<u128>) -> (r: u64)
    ensures
        r == match millis {
            Some(m) => m as u64,
            None => 0,
        },
{
    match millis {
        Some(m) => m as u64,
        None => 0,
    }
}

/// The wall clock in milliseconds since the Unix epoch (0 if the clock
/// reads earlier).
pub fn now_ms() -> u64 {
    let since = since_unix_epoch(system_time_now());
    let millis = match since {
        Some(d) => Some(duration_millis(d)),
        None => None,
    };
    millis_to_u64(millis)
}

/// Whether the built frontend is present: `Ok` when `dist/index.html`
/// exists, otherwise the error the server stops with.
pub fn ensure_frontend_dist_exists(index_html_exists: bool) -> (r: Result<(), String>)
    ensures
        index_html_exists ==> r is Ok,
        !index_html_exists ==> (r matches Err(m) && m@
            == "frontend assets are missing; run `trunk build` first so `dist/index.html` exists"@),
{
    if index_html_exists {
        Ok(())
    } else {
        Err(
            String::from_str(
                "frontend assets are missing; run `trunk build` first so `dist/index.html` exists",
            ),
        )
    }
}

#[verifier::external_type_specification]
#[verifier::external_body]
pub struct ExJsonError(serde_json::Error);

/// A lower-case hexadecimal digit.
pub open spec fn hex_digit(d: int) -> char {
    if d < 10 {
        (('0' as int) + d) as char
    } else {
        (('a' as int) + d - 10) as char
    }
}

/// How `serde_json` writes one character inside a string: `"` and `\` and
/// the control characters below U+0020 escaped (`\b \t \n \f \r`, the
/// rest as `\u00XX` in lower-case hex), every other character as it is.
pub open spec fn json_char(c: char) -> Seq<char> {
    let u = c as int;
    if c == '"' {
        seq!['\\', '"']
    } else if c == '\\' {
        seq!['\\', '\\']
    } else if u == 0x08 {
        seq!['\\', 'b']
    } else if u == 0x09 {
        seq!['\\', 't']
    } else if u == 0x0a {
        seq!['\\', 'n']
    } else if u == 0x0c {
        seq!['\\', 'f']
    } else if u == 0x0d {
        seq!['\\', 'r']
    } else if u < 0x20 {
        seq!['\\', 'u', '0', '0', hex_digit(u / 16), hex_digit(u % 16)]
    } else {
        seq![c]
    }
}

/// The characters of a string, each written as `json_char` writes it.
pub open spec fn json_escaped(s: Seq<char>) -> Seq<char>
    decreases s.len(),
{
    if s.len() == 0 {
        Seq::empty()
    } else {
        json_escaped(s.drop_last()) + json_char(s.last())
    }
}

/// A JSON string literal.
pub open spec fn json_string(s: Seq<char>) -> Seq<char> {
    seq!['"'] + json_escaped(s) + seq!['"']
}

/// The compact JSON text of a list of strings: the string literals between
/// `[` and `]`, separated by commas.
pub open spec fn json_string_list(items: Seq<Seq<char>>) -> Seq<char> {
    seq!['['] + join(items.map_values(|x: Seq<char>| json_string(x)), seq![',']) + seq![']']
}

/// `serde_json::to_string` on a `Vec<String>`. Writing into a `Vec<u8>`
/// cannot fail and every `String` serialises, so the call succeeds; its
/// text is the compact form `json_string_list` describes (the compact
/// formatter with the escape table of `serde_json::ser`).
#[verifier::external_body]
fn to_json_string_list(items: &Vec<String>) -> (r: Result<String, serde_json::Error>)
    ensures
        r is Ok,
        r matches Ok(s) ==> s@ == json_string_list(items@.map_values(|x: String| x@)),
{
    serde_json::to_string(items)
}

/// Why a connect request cannot be turned into a session configuration.
pub enum EndpointConfigError {
    Locator(crate::zenoh_api::LocatorError),
    Json,
}

/// The `connect/endpoints` value for a connect request: the JSON list
/// holding the request's normalised locator.
pub fn connect_endpoints_json(request: &crate::zenoh_api::ZenohConnectRequest) -> (r: Result<
    String,
    EndpointConfigError,
>)
    ensures
        match crate::zenoh_api::locator_of(request.connection_type, request.endpoint@) {
            Err(e) => r matches Err(EndpointConfigError::Locator(x)) && x == e,
            Ok(l) => r matches Ok(s) && s@ == json_string_list(seq![l]),
        },
{
    let locator = match crate::zenoh_api::normalize_locator(
        request.connection_type,
        request.endpoint.as_str(),
    ) {
        Ok(l) => l,
        Err(e) => {
            return Err(EndpointConfigError::Locator(e));
        },
    };
    let ghost lv = locator@;
    let items = vec![locator];
    assert(items@.map_values(|x: String| x@) =~= seq![lv]);
    match to_json_string_list(&items) {
        Ok(s) => Ok(s),
        Err(_) => Err(EndpointConfigError::Json),
    }
}

} // verus!
