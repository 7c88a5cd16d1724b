//! The WhatsApp catalog entry.
use vstd::prelude::*;
use vstd::string::*;
use super::{CATEGORY_CHAT, builtin_provider, static_channel_type, string_field};
use crate::json::Json;
use crate::model::{Capability, ConnectionType, Provider, ProviderKind};

verus! {

/// `definition()`: the built-in WhatsApp provider.
pub fn definition() -> (r: Provider)
    ensures
        r.id@ == "whatsapp"@,
        r.name@ == "WhatsApp"@,
        r.kind == ProviderKind::BuiltIn,
        r.categories@.len() == 1 && r.categories@[0]@ == "chat"@,
        r.connection_types@.len() == 1,
        r.connection_types@[0].id@ == "meta"@,
        r.connection_types@[0].name@ == "Meta WhatsApp Business"@,
        r.connection_types@[0].capabilities@ == seq![Capability::Channel],
        r.connection_types@[0].credential_source is Static,
{
    let mut fields: Vec<(&str, Json)> = Vec::new();
    fields.push(("access_token", string_field("Access token", true, None)));
    fields.push(("app_secret", string_field("Meta app secret", true, None)));
    fields.push(("verify_token", string_field("Webhook verify token", true, None)));
    fields.push(("phone_number_id", string_field("Phone number ID", false, None)));
    fields.push(("waba_id", string_field("Business account ID", false, None)));
    let typ = static_channel_type("meta", "Meta WhatsApp Business", fields, &["access_token", "app_secret", "verify_token", "phone_number_id", "waba_id"]);
    builtin_provider(
        "whatsapp",
        "WhatsApp",
        CATEGORY_CHAT,
        typ,
        Some("https://cdn.jsdelivr.net/gh/glincker/thesvg@main/public/icons/whatsapp/default.svg"),
        Some("Connect your Meta WhatsApp Business account to this agent."),
        Some("WhatsApp phone number"),
    )
}

} // verus!
