pub mod activity;
pub mod api_models;
pub mod forward;
pub mod models;
pub mod net;
pub mod reaper;
pub mod registry;
pub mod shutdown;
pub mod web;
pub mod wol;

pub use api_models::AddMachinePayload;
pub use api_models::DeleteMachinePayload;
pub use api_models::DiscoveredDevice;
pub use api_models::Machine;
pub use api_models::NetworkInterface;
pub use api_models::PortForward;
pub use api_models::UpdateMachinePayload;
