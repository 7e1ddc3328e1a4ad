//! Static descriptors for every CVWP message type.
//!
//! Each [`MsgType`] has a fixed set of properties: which processing category
//! it belongs to, the minimum payload it must carry, and whether it is only
//! legal after a session has been opened.

use vstd::prelude::*;

use crate::wire::MsgType;

verus! {

/// Broad handling category, used for routing and metrics bucketing.
#[derive(Debug, Clone, Copy, PartialEq, Eq, Structural)]
pub enum Category {
    Session,
    Schema,
    Data,
    Reassembly,
    Flow,
    Compression,
    Connection,
    Engine,
    Stream,
    Channel,
    Snapshot,
}

/// Static properties of a message type.
#[derive(Debug, Clone, Copy)]
pub struct Descriptor {
    pub ty: MsgType,
    pub category: Category,
    /// Minimum legal payload length in bytes.
    pub min_len: usize,
    /// Whether the message is only valid after `SESSION_OPEN`.
    pub requires_open: bool,
}

impl Descriptor {
    pub fn accepts_len(&self, len: usize) -> (b: bool)
        ensures
            b == (len >= self.min_len),
    {
        len >= self.min_len
    }
}

/// The descriptor table: category, minimum payload length and open requirement.
pub open spec fn spec_descriptor(ty: MsgType) -> Descriptor {
    match ty {
        MsgType::SessionOpen => Descriptor { ty: MsgType::SessionOpen, category: Category::Session, min_len: 8, requires_open: false },
        MsgType::SessionClose => Descriptor { ty: MsgType::SessionClose, category: Category::Session, min_len: 0, requires_open: false },
        MsgType::SchemaDef => Descriptor { ty: MsgType::SchemaDef, category: Category::Schema, min_len: 4, requires_open: true },
        MsgType::SchemaUpdate => Descriptor { ty: MsgType::SchemaUpdate, category: Category::Schema, min_len: 4, requires_open: true },
        MsgType::TemplateDef => Descriptor { ty: MsgType::TemplateDef, category: Category::Schema, min_len: 4, requires_open: true },
        MsgType::DataRecord => Descriptor { ty: MsgType::DataRecord, category: Category::Data, min_len: 2, requires_open: true },
        MsgType::Fragment => Descriptor { ty: MsgType::Fragment, category: Category::Reassembly, min_len: 10, requires_open: true },
        MsgType::FragmentReorder => Descriptor { ty: MsgType::FragmentReorder, category: Category::Reassembly, min_len: 8, requires_open: true },
        MsgType::FlowOpen => Descriptor { ty: MsgType::FlowOpen, category: Category::Flow, min_len: 8, requires_open: true },
        MsgType::FlowTimeout => Descriptor { ty: MsgType::FlowTimeout, category: Category::Flow, min_len: 4, requires_open: true },
        MsgType::CompressedBlock => Descriptor { ty: MsgType::CompressedBlock, category: Category::Compression, min_len: 5, requires_open: true },
        MsgType::SectionHeader => Descriptor { ty: MsgType::SectionHeader, category: Category::Data, min_len: 4, requires_open: true },
        MsgType::ConnOpen => Descriptor { ty: MsgType::ConnOpen, category: Category::Connection, min_len: 4, requires_open: true },
        MsgType::ConnReset => Descriptor { ty: MsgType::ConnReset, category: Category::Connection, min_len: 4, requires_open: true },
        MsgType::Continuation => Descriptor { ty: MsgType::Continuation, category: Category::Data, min_len: 0, requires_open: true },
        MsgType::ModuleLoad => Descriptor { ty: MsgType::ModuleLoad, category: Category::Engine, min_len: 4, requires_open: true },
        MsgType::ModuleReload => Descriptor { ty: MsgType::ModuleReload, category: Category::Engine, min_len: 4, requires_open: true },
        MsgType::CallSymbol => Descriptor { ty: MsgType::CallSymbol, category: Category::Engine, min_len: 4, requires_open: true },
        MsgType::ScopeBegin => Descriptor { ty: MsgType::ScopeBegin, category: Category::Engine, min_len: 0, requires_open: true },
        MsgType::PluginRegister => Descriptor { ty: MsgType::PluginRegister, category: Category::Engine, min_len: 4, requires_open: true },
        MsgType::ScopeEnd => Descriptor { ty: MsgType::ScopeEnd, category: Category::Engine, min_len: 0, requires_open: true },
        MsgType::PluginInvoke => Descriptor { ty: MsgType::PluginInvoke, category: Category::Engine, min_len: 4, requires_open: true },
        MsgType::CompressConfig => Descriptor { ty: MsgType::CompressConfig, category: Category::Compression, min_len: 1, requires_open: true },
        MsgType::CompressData => Descriptor { ty: MsgType::CompressData, category: Category::Compression, min_len: 4, requires_open: true },
        MsgType::Request => Descriptor { ty: MsgType::Request, category: Category::Connection, min_len: 4, requires_open: true },
        MsgType::ProcessQueue => Descriptor { ty: MsgType::ProcessQueue, category: Category::Connection, min_len: 0, requires_open: true },
        MsgType::StreamOpen => Descriptor { ty: MsgType::StreamOpen, category: Category::Stream, min_len: 4, requires_open: true },
        MsgType::Packet => Descriptor { ty: MsgType::Packet, category: Category::Stream, min_len: 2, requires_open: true },
        MsgType::ReadWindow => Descriptor { ty: MsgType::ReadWindow, category: Category::Stream, min_len: 4, requires_open: true },
        MsgType::SeekRelative => Descriptor { ty: MsgType::SeekRelative, category: Category::Stream, min_len: 4, requires_open: true },
        MsgType::ChannelOpen => Descriptor { ty: MsgType::ChannelOpen, category: Category::Channel, min_len: 4, requires_open: true },
        MsgType::ChannelTeardown => Descriptor { ty: MsgType::ChannelTeardown, category: Category::Channel, min_len: 4, requires_open: true },
        MsgType::ChannelAlloc => Descriptor { ty: MsgType::ChannelAlloc, category: Category::Channel, min_len: 8, requires_open: true },
        MsgType::NestedRecord => Descriptor { ty: MsgType::NestedRecord, category: Category::Data, min_len: 0, requires_open: true },
        MsgType::SnapshotBegin => Descriptor { ty: MsgType::SnapshotBegin, category: Category::Snapshot, min_len: 0, requires_open: true },
        MsgType::SnapshotCommit => Descriptor { ty: MsgType::SnapshotCommit, category: Category::Snapshot, min_len: 0, requires_open: true },
    }
}

/// Return the descriptor for `ty`.
pub fn descriptor(ty: MsgType) -> (d: Descriptor)
    ensures
        d == spec_descriptor(ty),
        d.ty == ty,
{
    match ty {
        MsgType::SessionOpen => Descriptor { ty: MsgType::SessionOpen, category: Category::Session, min_len: 8, requires_open: false },
        MsgType::SessionClose => Descriptor { ty: MsgType::SessionClose, category: Category::Session, min_len: 0, requires_open: false },
        MsgType::SchemaDef => Descriptor { ty: MsgType::SchemaDef, category: Category::Schema, min_len: 4, requires_open: true },
        MsgType::SchemaUpdate => Descriptor { ty: MsgType::SchemaUpdate, category: Category::Schema, min_len: 4, requires_open: true },
        MsgType::TemplateDef => Descriptor { ty: MsgType::TemplateDef, category: Category::Schema, min_len: 4, requires_open: true },
        MsgType::DataRecord => Descriptor { ty: MsgType::DataRecord, category: Category::Data, min_len: 2, requires_open: true },
        MsgType::Fragment => Descriptor { ty: MsgType::Fragment, category: Category::Reassembly, min_len: 10, requires_open: true },
        MsgType::FragmentReorder => Descriptor { ty: MsgType::FragmentReorder, category: Category::Reassembly, min_len: 8, requires_open: true },
        MsgType::FlowOpen => Descriptor { ty: MsgType::FlowOpen, category: Category::Flow, min_len: 8, requires_open: true },
        MsgType::FlowTimeout => Descriptor { ty: MsgType::FlowTimeout, category: Category::Flow, min_len: 4, requires_open: true },
        MsgType::CompressedBlock => Descriptor { ty: MsgType::CompressedBlock, category: Category::Compression, min_len: 5, requires_open: true },
        MsgType::SectionHeader => Descriptor { ty: MsgType::SectionHeader, category: Category::Data, min_len: 4, requires_open: true },
        MsgType::ConnOpen => Descriptor { ty: MsgType::ConnOpen, category: Category::Connection, min_len: 4, requires_open: true },
        MsgType::ConnReset => Descriptor { ty: MsgType::ConnReset, category: Category::Connection, min_len: 4, requires_open: true },
        MsgType::Continuation => Descriptor { ty: MsgType::Continuation, category: Category::Data, min_len: 0, requires_open: true },
        MsgType::ModuleLoad => Descriptor { ty: MsgType::ModuleLoad, category: Category::Engine, min_len: 4, requires_open: true },
        MsgType::ModuleReload => Descriptor { ty: MsgType::ModuleReload, category: Category::Engine, min_len: 4, requires_open: true },
        MsgType::CallSymbol => Descriptor { ty: MsgType::CallSymbol, category: Category::Engine, min_len: 4, requires_open: true },
        MsgType::ScopeBegin => Descriptor { ty: MsgType::ScopeBegin, category: Category::Engine, min_len: 0, requires_open: true },
        MsgType::PluginRegister => Descriptor { ty: MsgType::PluginRegister, category: Category::Engine, min_len: 4, requires_open: true },
        MsgType::ScopeEnd => Descriptor { ty: MsgType::ScopeEnd, category: Category::Engine, min_len: 0, requires_open: true },
        MsgType::PluginInvoke => Descriptor { ty: MsgType::PluginInvoke, category: Category::Engine, min_len: 4, requires_open: true },
        MsgType::CompressConfig => Descriptor { ty: MsgType::CompressConfig, category: Category::Compression, min_len: 1, requires_open: true },
        MsgType::CompressData => Descriptor { ty: MsgType::CompressData, category: Category::Compression, min_len: 4, requires_open: true },
        MsgType::Request => Descriptor { ty: MsgType::Request, category: Category::Connection, min_len: 4, requires_open: true },
        MsgType::ProcessQueue => Descriptor { ty: MsgType::ProcessQueue, category: Category::Connection, min_len: 0, requires_open: true },
        MsgType::StreamOpen => Descriptor { ty: MsgType::StreamOpen, category: Category::Stream, min_len: 4, requires_open: true },
        MsgType::Packet => Descriptor { ty: MsgType::Packet, category: Category::Stream, min_len: 2, requires_open: true },
        MsgType::ReadWindow => Descriptor { ty: MsgType::ReadWindow, category: Category::Stream, min_len: 4, requires_open: true },
        MsgType::SeekRelative => Descriptor { ty: MsgType::SeekRelative, category: Category::Stream, min_len: 4, requires_open: true },
        MsgType::ChannelOpen => Descriptor { ty: MsgType::ChannelOpen, category: Category::Channel, min_len: 4, requires_open: true },
        MsgType::ChannelTeardown => Descriptor { ty: MsgType::ChannelTeardown, category: Category::Channel, min_len: 4, requires_open: true },
        MsgType::ChannelAlloc => Descriptor { ty: MsgType::ChannelAlloc, category: Category::Channel, min_len: 8, requires_open: true },
        MsgType::NestedRecord => Descriptor { ty: MsgType::NestedRecord, category: Category::Data, min_len: 0, requires_open: true },
        MsgType::SnapshotBegin => Descriptor { ty: MsgType::SnapshotBegin, category: Category::Snapshot, min_len: 0, requires_open: true },
        MsgType::SnapshotCommit => Descriptor { ty: MsgType::SnapshotCommit, category: Category::Snapshot, min_len: 0, requires_open: true },
    }
}

/// The display name of a category.
pub open spec fn spec_category_name(c: Category) -> &'static str {
    match c {
        Category::Session => "session",
        Category::Schema => "schema",
        Category::Data => "data",
        Category::Reassembly => "reassembly",
        Category::Flow => "flow",
        Category::Compression => "compression",
        Category::Connection => "connection",
        Category::Engine => "engine",
        Category::Stream => "stream",
        Category::Channel => "channel",
        Category::Snapshot => "snapshot",
    }
}

impl Category {
    pub fn name(self) -> (s: &'static str)
        ensures
            s == spec_category_name(self),
    {
        match self {
            Category::Session => "session",
            Category::Schema => "schema",
            Category::Data => "data",
            Category::Reassembly => "reassembly",
            Category::Flow => "flow",
            Category::Compression => "compression",
            Category::Connection => "connection",
            Category::Engine => "engine",
            Category::Stream => "stream",
            Category::Channel => "channel",
            Category::Snapshot => "snapshot",
        }
    }
}

/// Only `SESSION_OPEN` and `SESSION_CLOSE` are legal before a session is open.
pub proof fn lemma_only_session_messages_skip_open(ty: MsgType)
    ensures
        !spec_descriptor(ty).requires_open <==> (ty == MsgType::SessionOpen || ty == MsgType::SessionClose),
        spec_descriptor(ty).ty == ty,
{
}

} // verus!
