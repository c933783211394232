pub mod config;
pub mod frame;
pub mod image_processing;
pub mod retime;
pub mod playback;
pub mod video_processing;
