pub mod app;
pub mod board;
pub mod bytes;
pub mod device;
pub mod error;
pub mod land_geojson;
pub mod listen;
pub mod maidenhead;
pub mod mail;
pub mod map;
pub mod pipeline;
pub mod probe;
pub mod probe_app;
pub mod ptt;
pub mod resample;
pub mod rx;
pub mod send;
pub mod settings;
pub mod single;
pub mod text;
pub mod tx;
pub mod vad;
pub mod waterfall;
pub mod wav;
