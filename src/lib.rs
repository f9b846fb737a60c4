//! An Art-Net engine: the ArtDmx codec, the live universe, the recording
//! ring with its preview, the WAV and JSON-lines recording formats, the
//! playback frame builders, and the shared state that coordinates the
//! receiver, sender, recorders, player and animator.

pub mod codec;
pub mod jsonl;
pub mod live;
pub mod player;
pub mod record;
pub mod state;
pub mod wav;
