//! The server for commands on the same machine.
use vstd::prelude::*;
use crate::protocol::message::RksMessage;
use crate::text;
use crate::text::{concat2, concat4, to_decimal};
use crate::vault::RegistryCredential;

verus! {

/// Where the server listens.
pub fn listen_address() -> (r: String)
    ensures
        r@ == "127.0.0.1:6789"@,
{
    "127.0.0.1:6789".to_owned()
}

/// The path at which a token for joining is generated.
pub fn join_token_path() -> (r: String)
    ensures
        r@ == "/join_token"@,
{
    "/join_token".to_owned()
}

/// The path at which the credentials of registries are handed out anew.
pub fn refresh_path() -> (r: String)
    ensures
        r@ == "/registry/refresh"@,
{
    "/registry/refresh".to_owned()
}

/// What a request for a token is answered: the token, or why there is none.
pub fn generate_join_token(token: Result<String, String>) -> (r: String)
    ensures
        r@ == match token {
            Ok(t) => t@,
            Err(e) => e@,
        },
{
    match token {
        Ok(t) => t,
        Err(e) => e,
    }
}

/// What workers are told when the credentials are handed out.
pub fn credentials_message(credentials: Vec<RegistryCredential>) -> (r: RksMessage)
    ensures
        r == RksMessage::SetRegistryCredentials(credentials),
{
    RksMessage::SetRegistryCredentials(credentials)
}

/// The number of workers that were reached.
pub open spec fn reached(sent: Seq<bool>) -> nat
    decreases sent.len(),
{
    if sent.len() == 0 {
        0
    } else if sent.last() {
        reached(sent.drop_last()) + 1
    } else {
        reached(sent.drop_last())
    }
}

/// What a request to hand out the credentials is answered. `loaded` says why the credentials
/// could not be read, if so; `sent` says of each worker whether it was reached.
pub fn refresh_registry_credentials(loaded: Result<(), String>, sent: &Vec<bool>) -> (r: Result<
    String,
    String,
>)
    ensures
        match (loaded, r) {
            (Ok(_), Ok(t)) => t@ == "Pushed credentials to "@ + text::decimal(reached(sent@))
                + "/"@ + text::decimal(sent@.len()) + " workers"@,
            (Err(e), Err(t)) => t@ == "Failed to load credentials from vault: "@ + e@,
            _ => false,
        },
{
    if let Err(e) = loaded {
        return Err(concat2("Failed to load credentials from vault: ", e.as_str()));
    }
    let mut pushed: u64 = 0;
    let total: usize = sent.len();
    assert(sent@.take(0) =~= Seq::empty());
    for i in 0..total
        invariant
            total == sent@.len(),
            pushed == reached(sent@.take(i as int)),
            pushed <= i,
    {
        if sent[i] {
            pushed = pushed + 1;
        }
        assert(sent@.take(i + 1).drop_last() =~= sent@.take(i as int));
    }
    assert(sent@.take(total as int) =~= sent@);
    let mut s = concat4(
        "Pushed credentials to ",
        to_decimal(pushed).as_str(),
        "/",
        to_decimal(total as u64).as_str(),
    );
    s.append(" workers");
    Ok(s)
}

proof fn lemma_reached(sent: Seq<bool>)
    ensures
        reached(sent) <= sent.len(),
        reached(sent) == sent.len() <==> forall|i: int| 0 <= i < sent.len() ==> #[trigger] sent[i],
        reached(sent) == 0 <==> forall|i: int| 0 <= i < sent.len() ==> !#[trigger] sent[i],
    decreases sent.len(),
{
    if sent.len() > 0 {
        let less = sent.drop_last();
        lemma_reached(less);
        assert(forall|i: int| 0 <= i < less.len() ==> #[trigger] less[i] == sent[i]);
        assert(sent.last() == sent[sent.len() - 1]);
        if forall|i: int| 0 <= i < sent.len() ==> #[trigger] sent[i] {
            assert forall|i: int| 0 <= i < less.len() implies #[trigger] less[i] by {
                assert(sent[i]);
            }
        }
        if reached(sent) == sent.len() {
            assert forall|i: int| 0 <= i < sent.len() implies #[trigger] sent[i] by {
                if i < less.len() {
                    assert(less[i]);
                }
            }
        }
        if forall|i: int| 0 <= i < sent.len() ==> !#[trigger] sent[i] {
            assert forall|i: int| 0 <= i < less.len() implies !#[trigger] less[i] by {
                assert(!sent[i]);
            }
        }
        if reached(sent) == 0 {
            assert forall|i: int| 0 <= i < sent.len() implies !#[trigger] sent[i] by {
                if i < less.len() {
                    assert(!less[i]);
                }
            }
        }
    }
}

/// The answer to a refresh counts the workers that were reached: all, none, or how many there
/// were; without credentials it is an error.
pub proof fn law_reached_workers_are_counted(
    loaded: Result<(), String>,
    sent: Vec<bool>,
    r: Result<String, String>,
)
    requires
        call_ensures(refresh_registry_credentials, (loaded, &sent), r),
    ensures
        r is Ok <==> loaded is Ok,
        r matches Ok(t) ==> exists|n: nat|
            n <= sent@.len() && t@ == "Pushed credentials to "@ + #[trigger] text::decimal(n) + "/"@
                + text::decimal(sent@.len()) + " workers"@ && (n == sent@.len() <==> forall|i: int|
                0 <= i < sent@.len() ==> #[trigger] sent@[i]) && (n == 0 <==> forall|i: int|
                0 <= i < sent@.len() ==> !#[trigger] sent@[i]),
{
    lemma_reached(sent@);
    if r is Ok {
        let n = reached(sent@);
        assert(text::decimal(n) == text::decimal(reached(sent@)));
    }
}

} // verus!
