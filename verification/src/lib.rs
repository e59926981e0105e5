pub mod le;
pub mod m3g;
pub mod pvrtc;
