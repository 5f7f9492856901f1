//! Random values and fresh identifiers.
use vstd::prelude::*;

verus! {

/// `rand::random`: some 32-bit number. Nothing is claimed of which one.
#[verifier::external_body]
pub(crate) fn random_u32() -> (r: u32) {
    rand::random()
}

/// `rand::random`: some bytes. Nothing is claimed of which ones.
#[verifier::external_body]
pub(crate) fn random_bytes<const N: usize>() -> (r: [u8; N]) {
    rand::random()
}

/// `uuid::Uuid::new_v4`: a random identifier, as a number, whose version field is 4 and
/// whose variant field is that of RFC 4122.
#[verifier::external_body]
pub(crate) fn new_uid() -> (r: u128)
    ensures
        (r >> 76) & 0xf == 4,
        (r >> 62) & 3 == 2,
{
    uuid::Uuid::new_v4().as_u128()
}

/// The hexadecimal digit of a number below sixteen.
pub open spec fn hex_digit(d: int) -> char {
    if d < 10 {
        (48 + d) as u8 as char
    } else {
        (87 + d) as u8 as char
    }
}

/// The lowest `n` hexadecimal digits of a number, the most significant first.
pub open spec fn hex_text(v: nat, n: nat) -> Seq<char>
    decreases n,
{
    if n == 0 {
        Seq::empty()
    } else {
        hex_text(v / 16, (n - 1) as nat).push(hex_digit((v % 16) as int))
    }
}

/// Appends the hexadecimal digits of a number.
pub fn push_hex(out: &mut String, v: u128, n: usize)
    ensures
        final(out)@ == old(out)@ + hex_text(v as nat, n as nat),
    decreases n,
{
    if n > 0 {
        push_hex(out, v / 16, n - 1);
        let d: u8 = (v % 16) as u8;
        let c: char = if d < 10 {
            (48 + d) as char
        } else {
            (87 + d) as char
        };
        let ghost before = out@;
        out.push(c);
        assert(out@ =~= old(out)@ + hex_text(v as nat, n as nat));
    } else {
        assert(out@ =~= old(out)@ + hex_text(v as nat, 0));
    }
}

/// A name made of a base, a dash and eight hexadecimal digits.
pub open spec fn suffixed(base: Seq<char>, suffix: u32) -> Seq<char> {
    base + "-"@ + hex_text(suffix as nat, 8)
}

/// A name made of a base, a dash and the eight hexadecimal digits of a number.
pub fn suffixed_name(base: &str, suffix: u32) -> (r: String)
    ensures
        r@ == suffixed(base@, suffix),
{
    let mut s = crate::text::concat2(base, "-");
    push_hex(&mut s, suffix as u128, 8);
    s
}

/// How long it takes until another name is tried, in milliseconds.
pub const NAME_RETRY_MS: u64 = 10;

/// A name to try: the suffix that was drawn for it, and the name. Which suffix is drawn is left to
/// chance.
pub fn draw_name(base: &str) -> (r: (u32, String))
    ensures
        r.1@ == suffixed(base@, r.0),
{
    let drawn = random_u32();
    (drawn, suffixed_name(base, drawn))
}

/// The name that a try gives: the one with the suffix that was drawn, unless it is taken.
pub open spec fn tried(base: Seq<char>, drawn: u32, taken: bool) -> Option<Seq<char>> {
    if taken {
        None
    } else {
        Some(suffixed(base, drawn))
    }
}

/// The name that a try gives. Where the name is taken there is none, and another suffix is drawn.
pub fn name_step(base: &str, drawn: u32, taken: bool) -> (r: Option<String>)
    ensures
        crate::text::opt_text(r) == tried(base@, drawn, taken),
{
    if taken {
        None
    } else {
        Some(suffixed_name(base, drawn))
    }
}

/// A name that a try gives is not one of those that are stored, and a try gives one unless the
/// name is stored.
pub proof fn law_given_name_is_free(stored: Set<Seq<char>>, base: Seq<char>, drawn: u32)
    ensures
        ({
            let r = tried(base, drawn, stored.contains(suffixed(base, drawn)));
            &&& r matches Some(n) ==> !stored.contains(n)
            &&& r is None <==> stored.contains(suffixed(base, drawn))
        }),
{
}

/// The text of a unique identifier: 32 hexadecimal digits in five groups.
pub open spec fn uid_text(v: u128) -> Seq<char> {
    hex_text(v as nat / 0x1_0000_0000_0000_0000_0000_0000, 8) + "-"@ + hex_text(
        v as nat / 0x1_0000_0000_0000_0000_0000,
        4,
    ) + "-"@ + hex_text(v as nat / 0x1_0000_0000_0000_0000, 4) + "-"@ + hex_text(
        v as nat / 0x1_0000_0000_0000,
        4,
    ) + "-"@ + hex_text(v as nat, 12)
}

proof fn lemma_hex_length(v: nat, n: nat)
    ensures
        hex_text(v, n).len() == n,
    decreases n,
{
    if n > 0 {
        lemma_hex_length(v / 16, (n - 1) as nat);
    }
}

/// The text of a unique identifier has 36 characters.
pub proof fn lemma_uid_text_length(v: u128)
    ensures
        uid_text(v).len() == 36,
{
    reveal_strlit("-");
    lemma_hex_length(v as nat / 0x1_0000_0000_0000_0000_0000_0000, 8);
    lemma_hex_length(v as nat / 0x1_0000_0000_0000_0000_0000, 4);
    lemma_hex_length(v as nat / 0x1_0000_0000_0000_0000, 4);
    lemma_hex_length(v as nat / 0x1_0000_0000_0000, 4);
    lemma_hex_length(v as nat, 12);
}

/// The text of a unique identifier.
pub fn uid_to_text(v: u128) -> (r: String)
    ensures
        r@ == uid_text(v),
{
    let mut s = String::new();
    push_hex(&mut s, v / 0x1_0000_0000_0000_0000_0000_0000, 8);
    assert(s@ =~= hex_text(v as nat / 0x1_0000_0000_0000_0000_0000_0000, 8));
    s.append("-");
    push_hex(&mut s, v / 0x1_0000_0000_0000_0000_0000, 4);
    s.append("-");
    push_hex(&mut s, v / 0x1_0000_0000_0000_0000, 4);
    s.append("-");
    push_hex(&mut s, v / 0x1_0000_0000_0000, 4);
    s.append("-");
    push_hex(&mut s, v, 12);
    s
}

proof fn lemma_hex_injective(a: nat, b: nat, n: nat)
    requires
        hex_text(a, n) == hex_text(b, n),
    ensures
        n == 8 && a < 0x1_0000_0000 && b < 0x1_0000_0000 ==> a == b,
        n > 0 ==> a % 16 == b % 16 && hex_text(a / 16, (n - 1) as nat) == hex_text(
            b / 16,
            (n - 1) as nat,
        ),
    decreases n,
{
    if n > 0 {
        let s = hex_text(a / 16, (n - 1) as nat);
        let t = hex_text(b / 16, (n - 1) as nat);
        assert(hex_text(a, n).drop_last() =~= s);
        assert(hex_text(b, n).drop_last() =~= t);
        assert(hex_text(a, n).last() == hex_digit((a % 16) as int));
        assert(hex_text(b, n).last() == hex_digit((b % 16) as int));
        lemma_hex_injective(a / 16, b / 16, (n - 1) as nat);
    }
    if n == 8 {
        lemma_hex_injective(a / 16 / 16, b / 16 / 16, 6);
        lemma_hex_injective(a / 16 / 16 / 16, b / 16 / 16 / 16, 5);
        lemma_hex_injective(a / 16 / 16 / 16 / 16, b / 16 / 16 / 16 / 16, 4);
        lemma_hex_injective(a / 16 / 16 / 16 / 16 / 16, b / 16 / 16 / 16 / 16 / 16, 3);
        lemma_hex_injective(a / 16 / 16 / 16 / 16 / 16 / 16, b / 16 / 16 / 16 / 16 / 16 / 16, 2);
        lemma_hex_injective(
            a / 16 / 16 / 16 / 16 / 16 / 16 / 16,
            b / 16 / 16 / 16 / 16 / 16 / 16 / 16,
            1,
        );
    }
}

/// A name that is given is the base, a dash and eight digits of what was drawn; different drawings
/// give different names. A taken name is not given.
pub proof fn law_drawn_names_differ(
    base: &str,
    a: u32,
    b: u32,
    taken: bool,
    x: String,
    y: String,
    step: Option<String>,
)
    requires
        call_ensures(suffixed_name, (base, a), x),
        call_ensures(suffixed_name, (base, b), y),
        call_ensures(name_step, (base, a, taken), step),
    ensures
        (base@ + "-"@).is_prefix_of(x@),
        x@.len() == base@.len() + 9,
        x@ == y@ ==> a == b,
        step is None <==> taken,
        step matches Some(n) ==> n@ == x@,
{
    reveal_strlit("-");
    lemma_hex_length(a as nat, 8);
    lemma_hex_length(b as nat, 8);
    let p = base@ + "-"@;
    assert(x@.subrange(0, p.len() as int) =~= p);
    if x@ == y@ {
        assert(x@.skip(p.len() as int) =~= hex_text(a as nat, 8));
        assert(y@.skip(p.len() as int) =~= hex_text(b as nat, 8));
        lemma_hex_injective(a as nat, b as nat, 8);
    }
}

} // verus!
