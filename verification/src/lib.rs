//! Firefly surveillance-data library: ASTERIX wire formats and the decision
//! logic of the sensor adapters, each stated and proved with Verus.

pub mod fspec;
pub mod octets;
pub mod wire;
pub mod cat062;
pub mod cat063;
pub mod cat065;
pub mod cat048;
pub mod record;
pub mod cat021;
pub mod cat020;
pub mod cat034;
pub mod cat002;
pub mod cat019;
pub mod cat001;
pub mod bds;
pub mod ids;
pub mod plot;
pub mod track;
pub mod text;
pub mod adsbagg;
pub mod ogn;
pub mod beacon;
pub mod reconnect;
pub mod aircraft;
pub mod describe;
pub mod correlation;
pub mod settings;
pub mod flight_plan;
