// An in-memory key-value store that speaks a RESP-style wire protocol, with
// single-leader replication.
//
// message        frames, their model and their byte encoding
// parser         the decoder, specified by a grammar over bytes
// round_trip     decoding what was encoded gives back the frames
// command_parser commands lifted from array frames
// db             the store, with expiry against a given instant
// config         the replication settings and the leader address
// handler        the leader's command engine
// replication    the follower's apply path and handshake
pub mod command_parser;
pub mod config;
pub mod db;
pub mod handler;
pub mod message;
pub mod parser;
pub mod replication;
pub mod round_trip;
