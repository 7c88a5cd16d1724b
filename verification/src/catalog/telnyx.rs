//! The Telnyx WhatsApp catalog entry.
use vstd::prelude::*;
use vstd::string::*;
use super::{CATEGORY_CHAT, builtin_provider, static_channel_type, string_field};
use crate::json::Json;
use crate::model::{Capability, ConnectionType, Provider, ProviderKind};

verus! {

/// `definition()`: the built-in Telnyx WhatsApp provider.
pub fn definition() -> (r: Provider)
    ensures
        r.id@ == "telnyx"@,
        r.name@ == "Telnyx WhatsApp"@,
        r.kind == ProviderKind::BuiltIn,
        r.categories@.len() == 1 && r.categories@[0]@ == "chat"@,
        r.connection_types@.len() == 1,
        r.connection_types@[0].id@ == "whatsapp"@,
        r.connection_types@[0].name@ == "Telnyx WhatsApp"@,
        r.connection_types@[0].capabilities@ == seq![Capability::Channel],
        r.connection_types@[0].credential_source is Static,
{
    let mut fields: Vec<(&str, Json)> = Vec::new();
    fields.push(("api_key", string_field("API key", true, None)));
    fields.push(("phone_number", string_field("Sending phone number", false, Some("^\\+[0-9]{7,15}$"))));
    fields.push(("messaging_profile_id", string_field("Messaging profile ID", false, None)));
    fields.push(("public_key", string_field("Ed25519 public key", false, None)));
    let typ = static_channel_type("whatsapp", "Telnyx WhatsApp", fields, &["api_key", "phone_number", "messaging_profile_id", "public_key"]);
    builtin_provider(
        "telnyx",
        "Telnyx WhatsApp",
        CATEGORY_CHAT,
        typ,
        Some("https://telnyx.com/favicon.ico"),
        Some("Enter your Telnyx API key and WhatsApp account details to connect this agent."),
        Some("Telnyx WhatsApp phone number"),
    )
}

} // verus!
