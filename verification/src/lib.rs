pub mod text;
pub mod sorted;
pub mod tags;
pub mod ini;
pub mod numtext;
pub mod obs_profile;
pub mod settings;
pub mod clip;
pub mod store;
pub mod game;
pub mod jobs;
pub mod instant;
pub mod merge;
pub mod pipeline;
pub mod json;
pub mod capture;
pub mod obsws;
pub mod obs;
pub mod ffmpeg;
pub mod audio;
pub mod commands;
pub mod sharing;
pub mod cleanup;
pub mod watcher;
pub mod monitors;
