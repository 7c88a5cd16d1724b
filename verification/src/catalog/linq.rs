//! The Linq catalog entry.
use vstd::prelude::*;
use vstd::string::*;
use super::{CATEGORY_CHAT, builtin_provider, static_channel_type, string_field};
use crate::json::Json;
use crate::model::{Capability, ConnectionType, Provider, ProviderKind};

verus! {

/// `definition()`: the built-in Linq provider.
pub fn definition() -> (r: Provider)
    ensures
        r.id@ == "linq"@,
        r.name@ == "Linq"@,
        r.kind == ProviderKind::BuiltIn,
        r.categories@.len() == 1 && r.categories@[0]@ == "chat"@,
        r.connection_types@.len() == 1,
        r.connection_types@[0].id@ == "account"@,
        r.connection_types@[0].name@ == "Linq account"@,
        r.connection_types@[0].capabilities@ == seq![Capability::Channel],
        r.connection_types@[0].credential_source is Static,
{
    let mut fields: Vec<(&str, Json)> = Vec::new();
    fields.push(("api_token", string_field("API token", true, None)));
    fields.push(("phone_number", string_field("Sending phone number", false, Some("^\\+[0-9]{7,15}$"))));
    fields.push(("webhook_signing_secret", string_field("Webhook signing secret", true, None)));
    let typ = static_channel_type("account", "Linq account", fields, &["api_token", "phone_number", "webhook_signing_secret"]);
    builtin_provider(
        "linq",
        "Linq",
        CATEGORY_CHAT,
        typ,
        Some("https://skywalker-next.linqapp.com/favicon.ico?v=4"),
        Some("Enter your Linq account credentials to connect messaging to this agent."),
        Some("Linq phone number"),
    )
}

} // verus!
