pub mod wifi;
pub mod netif;
pub mod ethernet;
pub mod system;
pub mod update;
pub mod daemon;
