//! The deployment side of the service: replicas that run agents, the state
//! they cache and the decisions the gateway makes on what they publish.
pub mod store;
pub mod project;
pub mod wire;
pub mod ingest;
pub mod retention;
pub mod proxy;
pub mod cold;
pub mod relay;
pub mod routing;
pub mod corrosion;
pub mod outbox;
pub mod register;
pub mod telemetry;
pub mod attachments;
pub mod scheduling;
pub mod lease;
pub mod inbox;
pub mod rpc_errors;
pub mod options;
pub mod runs;
pub mod messages;
pub mod ingress;
pub mod provider_events;
pub mod work;
pub mod serving;
pub mod local_agents;
pub mod channel_tools;
pub mod bridge;
