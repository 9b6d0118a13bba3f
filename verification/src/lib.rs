//! FullFrame recording core: the MP4 muxer, the H.264 packet handling, the
//! frame geometry and the recording state, each with its contract.

pub mod bytes;
pub mod mp4_boxes;
pub mod mp4_format;
pub mod mp4_muxer;
pub mod mp4_laws;
pub mod text;
pub mod encoder;
pub mod encoder_cpu;
pub mod pipeline;
pub mod frame;
pub mod snapshot;
pub mod recording;
pub mod window_list;
pub mod temp_files;
