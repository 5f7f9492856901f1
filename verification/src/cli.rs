//! The commands of the daemon.
use vstd::prelude::*;
use vstd::string::*;
use crate::text;
use crate::text::{bytes_of, concat2, concat3};
use crate::vault::RegistryCredential;

verus! {

/// The command line.
#[derive(Debug)]
pub struct Cli {
    pub command: Commands,
}

/// What the daemon is asked to do. Files are named by their paths.
#[derive(Debug)]
pub enum Commands {
    /// Start the daemon.
    Start { config: String },
    /// Generate something.
    Gen { sub: GenCommand },
    /// Log in to a container registry through a browser.
    Login { server: String, config: String, skip_tls_verify: bool },
    /// Remove the stored credentials of a registry.
    Logout { registry: String, config: String },
    /// Manage the configuration.
    Config { sub: ConfigCommand },
}

/// What to generate.
#[derive(Debug)]
pub enum GenCommand {
    /// Certificates.
    Certs { config: String },
    /// A token for joining, from the daemon at the port.
    JoinToken { port: String },
}

/// What to do with the configuration.
#[derive(Debug)]
pub enum ConfigCommand {
    /// List all that is stored.
    List { config: String },
}

/// The server to log in to when none is given.
pub fn default_server() -> (r: String)
    ensures
        r@ == "https://libra.tools"@,
{
    "https://libra.tools".to_owned()
}

/// The port of the daemon when none is given.
pub fn default_port() -> (r: String)
    ensures
        r@ == "6789"@,
{
    "6789".to_owned()
}

impl GenCommand {
    /// What a generation does: it reads a configuration and writes certificates, or it asks a
    /// URL for a token.
    pub fn handle(&self) -> (r: GenStep)
        ensures
            match (*self, r) {
                (GenCommand::Certs { config }, GenStep::Certs(c)) => c@ == config@,
                (GenCommand::JoinToken { port }, GenStep::Ask(url)) => url@ == "http://127.0.0.1:"@
                    + port@ + "/join_token"@,
                _ => false,
            },
    {
        match self {
            GenCommand::Certs { config } => GenStep::Certs(config.clone()),
            GenCommand::JoinToken { port } => GenStep::Ask(
                concat3("http://127.0.0.1:", port.as_str(), "/join_token"),
            ),
        }
    }
}

/// What a generation does.
#[derive(Debug)]
pub enum GenStep {
    /// Writes certificates for the configuration.
    Certs(String),
    /// Asks a URL and prints the answer.
    Ask(String),
}

/// The bytes of a text.
pub open spec fn bytes(s: Seq<char>) -> Seq<u8> {
    vstd::utf8::encode_utf8(s)
}

/// Whether a token can be shown by its ends: it is short, or no character lies across the end of
/// its first or the start of its last four bytes.
pub open spec fn maskable(pat: Seq<char>) -> bool {
    bytes(pat).len() > 8 ==> vstd::utf8::is_char_boundary(bytes(pat), 4)
        && vstd::utf8::is_char_boundary(bytes(pat), bytes(pat).len() - 4)
}

/// A token as it is shown: the first and the last four bytes of a long one, nothing of a short
/// one.
pub open spec fn masked(pat: Seq<char>) -> Seq<char> {
    let b = bytes(pat);
    if b.len() > 8 {
        vstd::utf8::decode_utf8(b.subrange(0, 4)) + "..."@ + vstd::utf8::decode_utf8(
            b.subrange(b.len() - 4, b.len() as int),
        )
    } else {
        "****"@
    }
}

/// A token as it is shown.
pub fn mask_token(pat: &str) -> (r: String)
    requires
        maskable(pat@),
    ensures
        r@ == masked(pat@),
{
    broadcast use vstd::utf8::encode_utf8_decode_utf8;

    let n: usize = bytes_of(pat).len();
    if n > 8 {
        let (first, _) = pat.split_at(4);
        let (_, last) = pat.split_at(n - 4);
        proof {
            assert(first.spec_bytes() == bytes(first@));
            assert(last.spec_bytes() == bytes(last@));
            assert(vstd::utf8::decode_utf8(bytes(first@)) == first@);
            assert(vstd::utf8::decode_utf8(bytes(last@)) == last@);
        }
        concat3(first, "...", last)
    } else {
        "****".to_owned()
    }
}

/// A text with blanks behind it up to the width.
pub open spec fn padded(s: Seq<char>, width: nat) -> Seq<char> {
    if s.len() >= width {
        s
    } else {
        s + Seq::new((width - s.len()) as nat, |i: int| ' ')
    }
}

fn pad(s: &str, width: usize) -> (r: String)
    ensures
        r@ == padded(s@, width as nat),
{
    let mut r: String = s.to_owned();
    let mut n: usize = text::chars_of(s).len();
    let ghost start = s@.len();
    while n < width
        invariant
            start == s@.len(),
            start <= n,
            n == r@.len(),
            start <= width ==> n <= width,
            start >= width ==> n == start,
            r@ =~= s@ + Seq::new((n - start) as nat, |i: int| ' '),
        decreases width - n,
    {
        r.push(' ');
        n = n + 1;
    }
    assert(r@ =~= padded(s@, width as nat));
    r
}

/// The line of a credential in the listing.
pub open spec fn credential_line(c: RegistryCredential) -> Seq<char> {
    padded(c.registry@, 40) + " "@ + masked(c.pat@)
}

/// The lines that a listing of the stored credentials prints.
pub open spec fn listing(credentials: Seq<RegistryCredential>) -> Seq<Seq<char>> {
    if credentials.len() == 0 {
        seq!["No configurations stored."@]
    } else {
        seq!["Registry Credentials:"@, padded("REGISTRY"@, 40) + " TOKEN (masked)"@]
            + credentials.map_values(|c: RegistryCredential| credential_line(c))
    }
}

impl ConfigCommand {
    /// The lines that a listing of the stored credentials prints.
    pub fn handle(&self, credentials: &Vec<RegistryCredential>) -> (r: Vec<String>)
        requires
            forall|i: int|
                0 <= i < credentials@.len() ==> maskable((#[trigger] credentials@[i]).pat@),
        ensures
            text::texts(r@) == listing(credentials@),
    {
        let mut r: Vec<String> = Vec::new();
        if credentials.len() == 0 {
            r.push("No configurations stored.".to_owned());
            assert(text::texts(r@) =~= listing(credentials@));
            return r;
        }
        r.push("Registry Credentials:".to_owned());
        r.push(concat2(pad("REGISTRY", 40).as_str(), " TOKEN (masked)"));
        let ghost head = seq!["Registry Credentials:"@, padded("REGISTRY"@, 40) + " TOKEN (masked)"@];
        let ghost lines = credentials@.map_values(|c: RegistryCredential| credential_line(c));
        assert(text::texts(r@) =~= head + lines.take(0));
        for i in 0..credentials.len()
            invariant
                forall|i: int|
                    0 <= i < credentials@.len() ==> maskable((#[trigger] credentials@[i]).pat@),
                lines == credentials@.map_values(|c: RegistryCredential| credential_line(c)),
                text::texts(r@) == head + lines.take(i as int),
        {
            let c = &credentials[i];
            let shown = mask_token(c.pat.as_str());
            let ghost before = r@;
            r.push(concat3(pad(c.registry.as_str(), 40).as_str(), " ", shown.as_str()));
            assert(text::texts(r@) =~= text::texts(before).push(lines[i as int]));
            assert(lines.take(i + 1) =~= lines.take(i as int).push(lines[i as int]));
            assert(text::texts(r@) =~= head + lines.take(i + 1));
        }
        assert(lines.take(lines.len() as int) =~= lines);
        r
    }
}

/// A token is shown by its first and last four characters at most, and a short one not at all.
pub proof fn law_tokens_are_masked(pat: &str, r: String)
    requires
        call_ensures(mask_token, (pat,), r),
        vstd::utf8::is_ascii_chars(pat@),
    ensures
        pat@.len() <= 8 ==> r@ == "****"@,
        pat@.len() > 8 ==> r@ == pat@.subrange(0, 4) + "..."@ + pat@.subrange(
            pat@.len() - 4,
            pat@.len() as int,
        ),
{
    vstd::utf8::is_ascii_chars_encode_utf8(pat@);
    let b = bytes(pat@);
    if pat@.len() > 8 {
        let head = pat@.subrange(0, 4);
        let tail = pat@.subrange(pat@.len() - 4, pat@.len() as int);
        vstd::utf8::is_ascii_chars_encode_utf8(head);
        vstd::utf8::is_ascii_chars_encode_utf8(tail);
        assert(b.subrange(0, 4) =~= bytes(head));
        assert(b.subrange(b.len() - 4, b.len() as int) =~= bytes(tail));
        vstd::utf8::encode_utf8_decode_utf8(head);
        vstd::utf8::encode_utf8_decode_utf8(tail);
    }
}

/// Each credential is listed on a line of its own, after two lines of headings; without any there
/// is one line that says so.
pub proof fn law_each_credential_is_listed(
    c: ConfigCommand,
    credentials: Vec<RegistryCredential>,
    r: Vec<String>,
)
    requires
        call_ensures(ConfigCommand::handle, (&c, &credentials), r),
    ensures
        credentials@.len() == 0 ==> r@.len() == 1,
        credentials@.len() > 0 ==> r@.len() == credentials@.len() + 2,
        forall|i: int|
            0 <= i < credentials@.len() ==> (#[trigger] credentials@[i]).registry@.is_prefix_of(
                r@[i + 2]@,
            ),
{
    assert(text::texts(r@).len() == r@.len());
    assert forall|i: int| 0 <= i < credentials@.len() implies (
    #[trigger] credentials@[i]).registry@.is_prefix_of(r@[i + 2]@) by {
        assert(text::texts(r@)[i + 2] == r@[i + 2]@);
        let line = credential_line(credentials@[i]);
        assert(listing(credentials@)[i + 2] == line);
        let reg = credentials@[i].registry@;
        assert(line.subrange(0, reg.len() as int) =~= reg);
    }
}

} // verus!
