//! The CVWP wire vocabulary: stream and message header layout, limits and the
//! message-type table.

use vstd::prelude::*;

verus! {

/// Stream magic, the first four bytes of every CVWP stream.
pub const MAGIC: [u8; 4] = [0x43, 0x56, 0x57, 0x50];

/// Highest protocol version this implementation speaks.
pub const VERSION: u8 = 1;

/// Stream header: magic(4) | version(1) | flags(1) | msg_count(u16).
pub const STREAM_HEADER_LEN: usize = 8;

/// Message header: type(1) | flags(1) | length(u32).
pub const MSG_HEADER_LEN: usize = 6;

/// Largest payload a single message may declare by default.
pub const MAX_MSG_LEN: usize = 1048576;

/// Largest message count a stream header may declare by default.
pub const MAX_MSG_COUNT: usize = 4096;

/// Message flag: the payload is compressed.
pub const MFLAG_COMPRESSED: u8 = 0x01;

/// Message flag: the payload continues the previous message.
pub const MFLAG_CONTINUATION: u8 = 0x02;

/// Every CVWP message type.
#[derive(Debug, Clone, Copy, PartialEq, Eq, Structural, Hash)]
pub enum MsgType {
    SessionOpen,
    SessionClose,
    SchemaDef,
    SchemaUpdate,
    TemplateDef,
    DataRecord,
    Fragment,
    FragmentReorder,
    FlowOpen,
    FlowTimeout,
    CompressedBlock,
    SectionHeader,
    ConnOpen,
    ConnReset,
    Continuation,
    ModuleLoad,
    ModuleReload,
    CallSymbol,
    ScopeBegin,
    PluginRegister,
    ScopeEnd,
    PluginInvoke,
    CompressConfig,
    CompressData,
    Request,
    ProcessQueue,
    StreamOpen,
    Packet,
    ReadWindow,
    SeekRelative,
    ChannelOpen,
    ChannelTeardown,
    ChannelAlloc,
    NestedRecord,
    SnapshotBegin,
    SnapshotCommit,
}

/// The wire code of a message type.
pub open spec fn spec_code(t: MsgType) -> u8 {
    match t {
        MsgType::SessionOpen => 1u8,
        MsgType::SessionClose => 2u8,
        MsgType::SchemaDef => 3u8,
        MsgType::SchemaUpdate => 4u8,
        MsgType::TemplateDef => 5u8,
        MsgType::DataRecord => 6u8,
        MsgType::Fragment => 7u8,
        MsgType::FragmentReorder => 8u8,
        MsgType::FlowOpen => 9u8,
        MsgType::FlowTimeout => 10u8,
        MsgType::CompressedBlock => 11u8,
        MsgType::SectionHeader => 12u8,
        MsgType::ConnOpen => 13u8,
        MsgType::ConnReset => 14u8,
        MsgType::Continuation => 15u8,
        MsgType::ModuleLoad => 16u8,
        MsgType::ModuleReload => 17u8,
        MsgType::CallSymbol => 18u8,
        MsgType::ScopeBegin => 19u8,
        MsgType::PluginRegister => 20u8,
        MsgType::ScopeEnd => 21u8,
        MsgType::PluginInvoke => 22u8,
        MsgType::CompressConfig => 23u8,
        MsgType::CompressData => 24u8,
        MsgType::Request => 25u8,
        MsgType::ProcessQueue => 26u8,
        MsgType::StreamOpen => 27u8,
        MsgType::Packet => 28u8,
        MsgType::ReadWindow => 29u8,
        MsgType::SeekRelative => 30u8,
        MsgType::ChannelOpen => 31u8,
        MsgType::ChannelTeardown => 32u8,
        MsgType::ChannelAlloc => 33u8,
        MsgType::NestedRecord => 34u8,
        MsgType::SnapshotBegin => 35u8,
        MsgType::SnapshotCommit => 36u8,
    }
}

/// The message type a wire code denotes, if any.
pub open spec fn spec_from_code(v: u8) -> Option<MsgType> {
    if v == 1u8 { Some(MsgType::SessionOpen) } else
    if v == 2u8 { Some(MsgType::SessionClose) } else
    if v == 3u8 { Some(MsgType::SchemaDef) } else
    if v == 4u8 { Some(MsgType::SchemaUpdate) } else
    if v == 5u8 { Some(MsgType::TemplateDef) } else
    if v == 6u8 { Some(MsgType::DataRecord) } else
    if v == 7u8 { Some(MsgType::Fragment) } else
    if v == 8u8 { Some(MsgType::FragmentReorder) } else
    if v == 9u8 { Some(MsgType::FlowOpen) } else
    if v == 10u8 { Some(MsgType::FlowTimeout) } else
    if v == 11u8 { Some(MsgType::CompressedBlock) } else
    if v == 12u8 { Some(MsgType::SectionHeader) } else
    if v == 13u8 { Some(MsgType::ConnOpen) } else
    if v == 14u8 { Some(MsgType::ConnReset) } else
    if v == 15u8 { Some(MsgType::Continuation) } else
    if v == 16u8 { Some(MsgType::ModuleLoad) } else
    if v == 17u8 { Some(MsgType::ModuleReload) } else
    if v == 18u8 { Some(MsgType::CallSymbol) } else
    if v == 19u8 { Some(MsgType::ScopeBegin) } else
    if v == 20u8 { Some(MsgType::PluginRegister) } else
    if v == 21u8 { Some(MsgType::ScopeEnd) } else
    if v == 22u8 { Some(MsgType::PluginInvoke) } else
    if v == 23u8 { Some(MsgType::CompressConfig) } else
    if v == 24u8 { Some(MsgType::CompressData) } else
    if v == 25u8 { Some(MsgType::Request) } else
    if v == 26u8 { Some(MsgType::ProcessQueue) } else
    if v == 27u8 { Some(MsgType::StreamOpen) } else
    if v == 28u8 { Some(MsgType::Packet) } else
    if v == 29u8 { Some(MsgType::ReadWindow) } else
    if v == 30u8 { Some(MsgType::SeekRelative) } else
    if v == 31u8 { Some(MsgType::ChannelOpen) } else
    if v == 32u8 { Some(MsgType::ChannelTeardown) } else
    if v == 33u8 { Some(MsgType::ChannelAlloc) } else
    if v == 34u8 { Some(MsgType::NestedRecord) } else
    if v == 35u8 { Some(MsgType::SnapshotBegin) } else
    if v == 36u8 { Some(MsgType::SnapshotCommit) } else
    { None }
}

/// The protocol name of a message type.
pub open spec fn spec_name(t: MsgType) -> &'static str {
    match t {
        MsgType::SessionOpen => "SESSION_OPEN",
        MsgType::SessionClose => "SESSION_CLOSE",
        MsgType::SchemaDef => "SCHEMA_DEF",
        MsgType::SchemaUpdate => "SCHEMA_UPDATE",
        MsgType::TemplateDef => "TEMPLATE_DEF",
        MsgType::DataRecord => "DATA_RECORD",
        MsgType::Fragment => "FRAGMENT",
        MsgType::FragmentReorder => "FRAGMENT_REORDER",
        MsgType::FlowOpen => "FLOW_OPEN",
        MsgType::FlowTimeout => "FLOW_TIMEOUT",
        MsgType::CompressedBlock => "COMPRESSED_BLOCK",
        MsgType::SectionHeader => "SECTION_HEADER",
        MsgType::ConnOpen => "CONN_OPEN",
        MsgType::ConnReset => "CONN_RESET",
        MsgType::Continuation => "CONTINUATION",
        MsgType::ModuleLoad => "MODULE_LOAD",
        MsgType::ModuleReload => "MODULE_RELOAD",
        MsgType::CallSymbol => "CALL_SYMBOL",
        MsgType::ScopeBegin => "SCOPE_BEGIN",
        MsgType::PluginRegister => "PLUGIN_REGISTER",
        MsgType::ScopeEnd => "SCOPE_END",
        MsgType::PluginInvoke => "PLUGIN_INVOKE",
        MsgType::CompressConfig => "COMPRESS_CONFIG",
        MsgType::CompressData => "COMPRESS_DATA",
        MsgType::Request => "REQUEST",
        MsgType::ProcessQueue => "PROCESS_QUEUE",
        MsgType::StreamOpen => "STREAM_OPEN",
        MsgType::Packet => "PACKET",
        MsgType::ReadWindow => "READ_WINDOW",
        MsgType::SeekRelative => "SEEK_RELATIVE",
        MsgType::ChannelOpen => "CHANNEL_OPEN",
        MsgType::ChannelTeardown => "CHANNEL_TEARDOWN",
        MsgType::ChannelAlloc => "CHANNEL_ALLOC",
        MsgType::NestedRecord => "NESTED_RECORD",
        MsgType::SnapshotBegin => "SNAPSHOT_BEGIN",
        MsgType::SnapshotCommit => "SNAPSHOT_COMMIT",
    }
}

impl MsgType {
    /// Decode a wire code.
    pub fn from_u8(v: u8) -> (r: Option<MsgType>)
        ensures
            r == spec_from_code(v),
    {
        match v {
            1 => Some(MsgType::SessionOpen),
            2 => Some(MsgType::SessionClose),
            3 => Some(MsgType::SchemaDef),
            4 => Some(MsgType::SchemaUpdate),
            5 => Some(MsgType::TemplateDef),
            6 => Some(MsgType::DataRecord),
            7 => Some(MsgType::Fragment),
            8 => Some(MsgType::FragmentReorder),
            9 => Some(MsgType::FlowOpen),
            10 => Some(MsgType::FlowTimeout),
            11 => Some(MsgType::CompressedBlock),
            12 => Some(MsgType::SectionHeader),
            13 => Some(MsgType::ConnOpen),
            14 => Some(MsgType::ConnReset),
            15 => Some(MsgType::Continuation),
            16 => Some(MsgType::ModuleLoad),
            17 => Some(MsgType::ModuleReload),
            18 => Some(MsgType::CallSymbol),
            19 => Some(MsgType::ScopeBegin),
            20 => Some(MsgType::PluginRegister),
            21 => Some(MsgType::ScopeEnd),
            22 => Some(MsgType::PluginInvoke),
            23 => Some(MsgType::CompressConfig),
            24 => Some(MsgType::CompressData),
            25 => Some(MsgType::Request),
            26 => Some(MsgType::ProcessQueue),
            27 => Some(MsgType::StreamOpen),
            28 => Some(MsgType::Packet),
            29 => Some(MsgType::ReadWindow),
            30 => Some(MsgType::SeekRelative),
            31 => Some(MsgType::ChannelOpen),
            32 => Some(MsgType::ChannelTeardown),
            33 => Some(MsgType::ChannelAlloc),
            34 => Some(MsgType::NestedRecord),
            35 => Some(MsgType::SnapshotBegin),
            36 => Some(MsgType::SnapshotCommit),
            _ => None,
        }
    }

    /// The wire code of this type.
    pub fn code(self) -> (c: u8)
        ensures
            c == spec_code(self),
    {
        match self {
            MsgType::SessionOpen => 1,
            MsgType::SessionClose => 2,
            MsgType::SchemaDef => 3,
            MsgType::SchemaUpdate => 4,
            MsgType::TemplateDef => 5,
            MsgType::DataRecord => 6,
            MsgType::Fragment => 7,
            MsgType::FragmentReorder => 8,
            MsgType::FlowOpen => 9,
            MsgType::FlowTimeout => 10,
            MsgType::CompressedBlock => 11,
            MsgType::SectionHeader => 12,
            MsgType::ConnOpen => 13,
            MsgType::ConnReset => 14,
            MsgType::Continuation => 15,
            MsgType::ModuleLoad => 16,
            MsgType::ModuleReload => 17,
            MsgType::CallSymbol => 18,
            MsgType::ScopeBegin => 19,
            MsgType::PluginRegister => 20,
            MsgType::ScopeEnd => 21,
            MsgType::PluginInvoke => 22,
            MsgType::CompressConfig => 23,
            MsgType::CompressData => 24,
            MsgType::Request => 25,
            MsgType::ProcessQueue => 26,
            MsgType::StreamOpen => 27,
            MsgType::Packet => 28,
            MsgType::ReadWindow => 29,
            MsgType::SeekRelative => 30,
            MsgType::ChannelOpen => 31,
            MsgType::ChannelTeardown => 32,
            MsgType::ChannelAlloc => 33,
            MsgType::NestedRecord => 34,
            MsgType::SnapshotBegin => 35,
            MsgType::SnapshotCommit => 36,
        }
    }

    /// The protocol name, e.g. `SESSION_OPEN`.
    pub fn name(self) -> (s: &'static str)
        ensures
            s == spec_name(self),
    {
        match self {
            MsgType::SessionOpen => "SESSION_OPEN",
            MsgType::SessionClose => "SESSION_CLOSE",
            MsgType::SchemaDef => "SCHEMA_DEF",
            MsgType::SchemaUpdate => "SCHEMA_UPDATE",
            MsgType::TemplateDef => "TEMPLATE_DEF",
            MsgType::DataRecord => "DATA_RECORD",
            MsgType::Fragment => "FRAGMENT",
            MsgType::FragmentReorder => "FRAGMENT_REORDER",
            MsgType::FlowOpen => "FLOW_OPEN",
            MsgType::FlowTimeout => "FLOW_TIMEOUT",
            MsgType::CompressedBlock => "COMPRESSED_BLOCK",
            MsgType::SectionHeader => "SECTION_HEADER",
            MsgType::ConnOpen => "CONN_OPEN",
            MsgType::ConnReset => "CONN_RESET",
            MsgType::Continuation => "CONTINUATION",
            MsgType::ModuleLoad => "MODULE_LOAD",
            MsgType::ModuleReload => "MODULE_RELOAD",
            MsgType::CallSymbol => "CALL_SYMBOL",
            MsgType::ScopeBegin => "SCOPE_BEGIN",
            MsgType::PluginRegister => "PLUGIN_REGISTER",
            MsgType::ScopeEnd => "SCOPE_END",
            MsgType::PluginInvoke => "PLUGIN_INVOKE",
            MsgType::CompressConfig => "COMPRESS_CONFIG",
            MsgType::CompressData => "COMPRESS_DATA",
            MsgType::Request => "REQUEST",
            MsgType::ProcessQueue => "PROCESS_QUEUE",
            MsgType::StreamOpen => "STREAM_OPEN",
            MsgType::Packet => "PACKET",
            MsgType::ReadWindow => "READ_WINDOW",
            MsgType::SeekRelative => "SEEK_RELATIVE",
            MsgType::ChannelOpen => "CHANNEL_OPEN",
            MsgType::ChannelTeardown => "CHANNEL_TEARDOWN",
            MsgType::ChannelAlloc => "CHANNEL_ALLOC",
            MsgType::NestedRecord => "NESTED_RECORD",
            MsgType::SnapshotBegin => "SNAPSHOT_BEGIN",
            MsgType::SnapshotCommit => "SNAPSHOT_COMMIT",
        }
    }
}

/// Decoding a type's own code gives the type back.
pub proof fn lemma_code_roundtrip(t: MsgType)
    ensures
        spec_from_code(spec_code(t)) == Some(t),
        1 <= spec_code(t) <= 36,
{
}

/// A code decodes exactly when it lies in `1..=36`, and then to a type with that code.
pub proof fn lemma_from_code_inverse(v: u8)
    ensures
        spec_from_code(v) is Some <==> 1 <= v <= 36,
        spec_from_code(v) matches Some(t) ==> spec_code(t) == v,
{
}

} // verus!
