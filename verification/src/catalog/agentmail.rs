//! The AgentMail catalog entry.
use vstd::prelude::*;
use vstd::string::*;
use super::{CATEGORY_EMAIL, builtin_provider, static_channel_type, string_field};
use crate::json::Json;
use crate::model::{Capability, ConnectionType, Provider, ProviderKind};

verus! {

/// `definition()`: the built-in AgentMail provider.
pub fn definition() -> (r: Provider)
    ensures
        r.id@ == "agentmail"@,
        r.name@ == "AgentMail"@,
        r.kind == ProviderKind::BuiltIn,
        r.categories@.len() == 1 && r.categories@[0]@ == "email"@,
        r.connection_types@.len() == 1,
        r.connection_types@[0].id@ == "inbox"@,
        r.connection_types@[0].name@ == "AgentMail inbox"@,
        r.connection_types@[0].capabilities@ == seq![Capability::Channel],
        r.connection_types@[0].credential_source is Static,
{
    let mut fields: Vec<(&str, Json)> = Vec::new();
    fields.push(("inbox_id", string_field("Inbox ID", false, None)));
    fields.push(("api_key", string_field("API key", true, None)));
    fields.push(("webhook_secret", string_field("Webhook signing secret", true, None)));
    let typ = static_channel_type("inbox", "AgentMail inbox", fields, &["inbox_id", "api_key", "webhook_secret"]);
    builtin_provider(
        "agentmail",
        "AgentMail",
        CATEGORY_EMAIL,
        typ,
        Some("https://www.agentmail.to/favicon.ico"),
        Some("Connect your AgentMail inbox to this agent."),
        Some("AgentMail email address"),
    )
}

} // verus!
