//! The schemas of the control plane. Every implementation holds the same texts and computes the
//! same fingerprints from them, so that they never travel.
use vstd::prelude::*;

verus! {

pub const REGISTER_SCHEMA: &'static str = r#"{"type":"record","name":"Register","namespace":"ring.proto","fields":[{"name":"correlation_id","type":"long"},{"name":"app_name","type":"string"},{"name":"nonce","type":"long"},{"name":"reply_segment","type":"string"},{"name":"heartbeat_ms","type":"long"},{"name":"pid","type":"long"}]}"#;

pub const REGISTER_REPLY_SCHEMA: &'static str = r#"{"type":"record","name":"RegisterReply","namespace":"ring.proto","fields":[{"name":"correlation_id","type":"long"},{"name":"client_id","type":"long"},{"name":"status","type":"int"},{"name":"message","type":"string"}]}"#;

pub const UNREGISTER_SCHEMA: &'static str = r#"{"type":"record","name":"Unregister","namespace":"ring.proto","fields":[{"name":"correlation_id","type":"long"},{"name":"client_id","type":"long"}]}"#;

pub const PUBLISH_CHANNEL_SCHEMA: &'static str = r#"{"type":"record","name":"PublishChannel","namespace":"ring.proto","fields":[{"name":"correlation_id","type":"long"},{"name":"client_id","type":"long"},{"name":"channel","type":"string"},{"name":"schema_json","type":"string"},{"name":"access_key","type":"string"}]}"#;

pub const PUBLISH_REPLY_SCHEMA: &'static str = r#"{"type":"record","name":"PublishReply","namespace":"ring.proto","fields":[{"name":"correlation_id","type":"long"},{"name":"channel_id","type":"long"},{"name":"schema_fp","type":"long"},{"name":"arena","type":"string"},{"name":"status","type":"int"},{"name":"message","type":"string"}]}"#;

pub const LIST_CHANNELS_SCHEMA: &'static str = r#"{"type":"record","name":"ListChannels","namespace":"ring.proto","fields":[{"name":"correlation_id","type":"long"},{"name":"client_id","type":"long"}]}"#;

pub const SUBSCRIBE_SCHEMA: &'static str = r#"{"type":"record","name":"Subscribe","namespace":"ring.proto","fields":[{"name":"correlation_id","type":"long"},{"name":"client_id","type":"long"},{"name":"channel_id","type":"long"},{"name":"access_key","type":"string"},{"name":"expected_fp","type":"long"}]}"#;

pub const SUBSCRIBE_REPLY_SCHEMA: &'static str = r#"{"type":"record","name":"SubscribeReply","namespace":"ring.proto","fields":[{"name":"correlation_id","type":"long"},{"name":"arena","type":"string"},{"name":"schema_fp","type":"long"},{"name":"status","type":"int"},{"name":"message","type":"string"}]}"#;

pub const EXPOSE_FUNCTION_SCHEMA: &'static str = r#"{"type":"record","name":"ExposeFunction","namespace":"ring.proto","fields":[{"name":"correlation_id","type":"long"},{"name":"client_id","type":"long"},{"name":"fn_name","type":"string"},{"name":"req_schema_json","type":"string"},{"name":"resp_schema_json","type":"string"},{"name":"access_key","type":"string"},{"name":"req_arena_cap","type":"long"}]}"#;

pub const EXPOSE_REPLY_SCHEMA: &'static str = r#"{"type":"record","name":"ExposeReply","namespace":"ring.proto","fields":[{"name":"correlation_id","type":"long"},{"name":"fn_id","type":"long"},{"name":"req_fp","type":"long"},{"name":"resp_fp","type":"long"},{"name":"req_arena","type":"string"},{"name":"status","type":"int"},{"name":"message","type":"string"}]}"#;

pub const LOOKUP_FUNCTION_SCHEMA: &'static str = r#"{"type":"record","name":"LookupFunction","namespace":"ring.proto","fields":[{"name":"correlation_id","type":"long"},{"name":"client_id","type":"long"},{"name":"fn_name","type":"string"},{"name":"access_key","type":"string"}]}"#;

pub const LOOKUP_REPLY_SCHEMA: &'static str = r#"{"type":"record","name":"LookupReply","namespace":"ring.proto","fields":[{"name":"correlation_id","type":"long"},{"name":"fn_id","type":"long"},{"name":"req_fp","type":"long"},{"name":"resp_fp","type":"long"},{"name":"req_arena","type":"string"},{"name":"status","type":"int"},{"name":"message","type":"string"}]}"#;

pub const HEARTBEAT_SCHEMA: &'static str = r#"{"type":"record","name":"Heartbeat","namespace":"ring.proto","fields":[{"name":"correlation_id","type":"long"},{"name":"client_id","type":"long"},{"name":"seq","type":"long"}]}"#;

pub const RPC_REQUEST_SCHEMA: &'static str = r#"{"type":"record","name":"RpcRequest","namespace":"ring.proto","fields":[{"name":"correlation_id","type":"long"},{"name":"caller_id","type":"long"},{"name":"reply_segment","type":"string"},{"name":"arg_fp","type":"long"},{"name":"args","type":"bytes"}]}"#;

pub const RPC_RESPONSE_SCHEMA: &'static str = r#"{"type":"record","name":"RpcResponse","namespace":"ring.proto","fields":[{"name":"correlation_id","type":"long"},{"name":"status","type":"int"},{"name":"message","type":"string"},{"name":"result_fp","type":"long"},{"name":"result","type":"bytes"}]}"#;

pub const LEGACY_REGISTER_SCHEMA: &'static str = r#"{"type":"record","name":"Register","namespace":"ring.proto","fields":[{"name":"correlation_id","type":"long"},{"name":"app_name","type":"string"},{"name":"nonce","type":"long"},{"name":"reply_segment","type":"string"},{"name":"heartbeat_ms","type":"long"}]}"#;

pub const LEGACY_EXPOSE_FUNCTION_SCHEMA: &'static str = r#"{"type":"record","name":"ExposeFunction","namespace":"ring.proto","fields":[{"name":"correlation_id","type":"long"},{"name":"client_id","type":"long"},{"name":"fn_name","type":"string"},{"name":"req_schema_json","type":"string"},{"name":"resp_schema_json","type":"string"},{"name":"access_key","type":"string"}]}"#;

pub const CHANNEL_LIST_SCHEMA: &'static str = r#"{"type":"record","name":"ChannelList","namespace":"ring.proto","fields":[{"name":"correlation_id","type":"long"},{"name":"channels","type":{"type":"array","items":{"type":"record","name":"ChannelInfo","fields":[{"name":"channel_id","type":"long"},{"name":"name","type":"string"},{"name":"owner_app","type":"string"},{"name":"schema_fp","type":"long"},{"name":"requires_key","type":"boolean"}]}}}]}"#;

} // verus!
