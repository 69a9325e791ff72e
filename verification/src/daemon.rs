//! The daemon's request handling: validating deploy and filesystem requests,
//! deciding whether a command can be dispatched, answering heartbeats, and
//! mapping errors onto HTTP statuses.
use std::collections::BTreeMap;

use vstd::prelude::*;

use crate::error::{error_text, HpcError};
use crate::table::{after_heartbeat, is_unknown_node, unknown_node_error, NodeRecord, NodeTable};
use crate::text::{is_blank, is_blank_str, push_str, string_views};
use crate::types::{DeployAction, DeploySpec, FsAction, FsSpec};

verus! {

/// A command destined for a specific node, carried over that node's live
/// command stream.
#[derive(Debug, Clone)]
pub enum NodeCommand {
    Deploy(DeploySpec),
    Fs(FsSpec),
}

impl NodeCommand {
    /// The id used to correlate the command with its eventual outcome.
    pub fn command_id(&self) -> (id: &str)
        ensures
            id@ == match self {
                NodeCommand::Deploy(d) => d.deployment_id@,
                NodeCommand::Fs(f) => f.command_id@,
            },
    {
        match self {
            NodeCommand::Deploy(d) => d.deployment_id.as_str(),
            NodeCommand::Fs(f) => f.command_id.as_str(),
        }
    }
}

/// Aggregate cluster health, cheap enough to poll frequently.
#[derive(Debug, Clone, Copy, PartialEq, Eq)]
pub struct ClusterStatus {
    pub epoch: u64,
    pub total_nodes: usize,
    pub healthy: usize,
    pub degraded: usize,
    pub unreachable: usize,
    pub connected_streams: usize,
    pub server_time_unix: u64,
}

/// Response acknowledging a command was accepted and dispatched.
#[derive(Debug, Clone, PartialEq, Eq)]
pub struct DispatchAck {
    pub accepted: bool,
    pub command_id: String,
    pub node_id: String,
}

/// HTTP status codes the API answers with.
pub const STATUS_BAD_REQUEST: u16 = 400;
pub const STATUS_NOT_FOUND: u16 = 404;
pub const STATUS_CONFLICT: u16 = 409;
pub const STATUS_INTERNAL_ERROR: u16 = 500;

/// An HTTP-shaped error: a status code and a message.
#[derive(Debug, Clone, PartialEq, Eq)]
pub struct ApiError {
    pub status: u16,
    pub message: String,
}

/// The status an error maps to: not found is 404, invalid state 409, an
/// invalid configuration or a failed conversion 400, anything else 500.
pub open spec fn status_for(e: HpcError) -> u16 {
    match e {
        HpcError::NotFound(_) => STATUS_NOT_FOUND,
        HpcError::InvalidState(_) => STATUS_CONFLICT,
        HpcError::ConfigInvalid(_) | HpcError::Conversion(_) => STATUS_BAD_REQUEST,
        _ => STATUS_INTERNAL_ERROR,
    }
}

impl ApiError {
    /// The HTTP form of an error: its status, and its rendering as message.
    pub fn from_error(e: &HpcError) -> (r: ApiError)
        ensures
            r.status == status_for(*e),
            r.message@ == error_text(*e),
    {
        let status = match e {
            HpcError::NotFound(_) => STATUS_NOT_FOUND,
            HpcError::InvalidState(_) => STATUS_CONFLICT,
            HpcError::ConfigInvalid(_) | HpcError::Conversion(_) => STATUS_BAD_REQUEST,
            _ => STATUS_INTERNAL_ERROR,
        };
        ApiError { status, message: e.describe() }
    }
}

/// Whether `s` is a freshly generated id in `uuid`'s hyphenated form: 36
/// characters, hyphens at positions 8, 13, 18 and 23, lowercase hex digits
/// elsewhere.
pub open spec fn is_hyphenated_uuid(s: Seq<char>) -> bool {
    &&& s.len() == 36
    &&& forall|i: int|
        0 <= i < 36 ==> if i == 8 || i == 13 || i == 18 || i == 23 {
            s[i] == '-'
        } else {
            ('0' <= #[trigger] s[i] <= '9') || ('a' <= s[i] <= 'f')
        }
}

/// A fresh random identifier: `uuid::Uuid::new_v4()` rendered with
/// `to_string`, which writes the hyphenated lowercase form. Which
/// identifier comes back is left open: it is drawn at random.
#[verifier::external_body]
fn new_uuid() -> (s: String)
    ensures
        is_hyphenated_uuid(s@),
{
    uuid::Uuid::new_v4().to_string()
}

/// `prefix` followed by a fresh identifier.
fn generated_id(prefix: &str) -> (s: String)
    ensures
        s@.len() == prefix@.len() + 36,
        s@.take(prefix@.len() as int) == prefix@,
        is_hyphenated_uuid(s@.skip(prefix@.len() as int)),
{
    let mut s = String::new();
    push_str(&mut s, prefix);
    let u = new_uuid();
    push_str(&mut s, u.as_str());
    proof {
        assert(s@.take(prefix@.len() as int) =~= prefix@);
        assert(s@.skip(prefix@.len() as int) =~= u@);
    }
    s
}

/// Whether `s` is `prefix` followed by a generated identifier.
pub open spec fn is_generated_id(s: Seq<char>, prefix: Seq<char>) -> bool {
    &&& s.len() == prefix.len() + 36
    &&& s.take(prefix.len() as int) == prefix
    &&& is_hyphenated_uuid(s.skip(prefix.len() as int))
}

/// Body of a deploy request. Without a `deployment_id` the server
/// generates one.
#[derive(Debug, Clone)]
pub struct DeployRequest {
    pub deployment_id: Option<String>,
    pub action: DeployAction,
    pub component: String,
    pub version: String,
    pub target_path: String,
    pub options: BTreeMap<String, String>,
}

/// Body of a filesystem request. Without a `command_id` the server
/// generates one.
#[derive(Debug, Clone)]
pub struct FsRequest {
    pub command_id: Option<String>,
    pub action: FsAction,
    pub device: String,
    pub mount_point: String,
    pub fs_type: String,
    pub mount_options: Vec<String>,
    pub force: bool,
}

/// The `ApiError` with the given status whose message is `msg`.
pub open spec fn is_api_error(e: ApiError, status: u16, msg: Seq<char>) -> bool {
    e.status == status && e.message@ == msg
}

pub open spec fn not_connected_text(id: Seq<char>) -> Seq<char> {
    "node "@ + id + " is not connected"@
}

fn not_connected(id: &str) -> (e: ApiError)
    ensures
        is_api_error(e, STATUS_CONFLICT, not_connected_text(id@)),
{
    let mut m = String::new();
    push_str(&mut m, "node ");
    push_str(&mut m, id);
    push_str(&mut m, " is not connected");
    ApiError { status: STATUS_CONFLICT, message: m }
}

fn bad_request(msg: &str) -> (e: ApiError)
    ensures
        is_api_error(e, STATUS_BAD_REQUEST, msg@),
{
    ApiError { status: STATUS_BAD_REQUEST, message: msg.to_owned() }
}

/// Turn a deploy request for node `node_id` into the spec to dispatch. A
/// blank component is a bad request; a node without a live command stream
/// (`connected` false) is a conflict; otherwise the spec carries the
/// request's fields and its id, or a generated `dep-` id when it has none.
pub fn accept_deploy(node_id: &str, req: DeployRequest, connected: bool) -> (r: Result<DeploySpec, ApiError>)
    ensures
        is_blank(req.component@) ==> (r matches Err(e) && is_api_error(e, STATUS_BAD_REQUEST, "component must not be empty"@)),
        !is_blank(req.component@) && !connected ==> (r matches Err(e) && is_api_error(e, STATUS_CONFLICT, not_connected_text(node_id@))),
        r is Ok <==> !is_blank(req.component@) && connected,
        r matches Ok(spec) ==> {
            &&& spec.action == req.action
            &&& spec.component == req.component
            &&& spec.version == req.version
            &&& spec.target_path == req.target_path
            &&& spec.options == req.options
            &&& match req.deployment_id {
                Some(id) => spec.deployment_id == id,
                None => is_generated_id(spec.deployment_id@, "dep-"@),
            }
        },
{
    if is_blank_str(req.component.as_str()) {
        return Err(bad_request("component must not be empty"));
    }
    if !connected {
        return Err(not_connected(node_id));
    }
    let deployment_id = match req.deployment_id {
        Some(id) => id,
        None => generated_id("dep-"),
    };
    Ok(DeploySpec {
        deployment_id,
        action: req.action,
        component: req.component,
        version: req.version,
        target_path: req.target_path,
        options: req.options,
    })
}

/// Turn a filesystem request for node `node_id` into the spec to dispatch.
/// A blank mount point is a bad request, and so is a format without
/// `force`; a node without a live command stream is a conflict; otherwise
/// the spec carries the request's fields and its id, or a generated `fs-`
/// id when it has none.
pub fn accept_fs(node_id: &str, req: FsRequest, connected: bool) -> (r: Result<FsSpec, ApiError>)
    ensures
        is_blank(req.mount_point@) ==> (r matches Err(e) && is_api_error(e, STATUS_BAD_REQUEST, "mount_point must not be empty"@)),
        !is_blank(req.mount_point@) && req.action == FsAction::Format && !req.force ==> (r matches Err(e)
            && is_api_error(e, STATUS_BAD_REQUEST, "format is destructive and requires force=true"@)),
        !is_blank(req.mount_point@) && !(req.action == FsAction::Format && !req.force) && !connected ==> (r matches Err(e)
            && is_api_error(e, STATUS_CONFLICT, not_connected_text(node_id@))),
        r is Ok <==> !is_blank(req.mount_point@) && !(req.action == FsAction::Format && !req.force) && connected,
        r matches Ok(spec) ==> {
            &&& spec.action == req.action
            &&& spec.device == req.device
            &&& spec.mount_point == req.mount_point
            &&& spec.fs_type == req.fs_type
            &&& spec.mount_options == req.mount_options
            &&& spec.force == req.force
            &&& match req.command_id {
                Some(id) => spec.command_id == id,
                None => is_generated_id(spec.command_id@, "fs-"@),
            }
        },
{
    if is_blank_str(req.mount_point.as_str()) {
        return Err(bad_request("mount_point must not be empty"));
    }
    if req.action == FsAction::Format && !req.force {
        return Err(bad_request("format is destructive and requires force=true"));
    }
    if !connected {
        return Err(not_connected(node_id));
    }
    let command_id = match req.command_id {
        Some(id) => id,
        None => generated_id("fs-"),
    };
    Ok(FsSpec {
        command_id,
        action: req.action,
        device: req.device,
        mount_point: req.mount_point,
        fs_type: req.fs_type,
        mount_options: req.mount_options,
        force: req.force,
    })
}

pub open spec fn no_stream_text(id: Seq<char>) -> Seq<char> {
    "node "@ + id + " has no live command stream"@
}

/// Whether a command can be pushed to node `id`: an unknown node is
/// `NotFound`, a known node without a live command stream (`has_stream`
/// false) is `InvalidState`.
pub fn check_dispatch<M>(table: &NodeTable<M>, id: &str, has_stream: bool) -> (r: Result<(), HpcError>)
    requires
        table.wf(),
    ensures
        !table.view().contains_key(id@) ==> (r matches Err(e) && is_unknown_node(e, id@)),
        table.view().contains_key(id@) && !has_stream ==> (r matches Err(e) && e matches HpcError::InvalidState(m)
            && m@ == no_stream_text(id@)),
        r is Ok <==> table.view().contains_key(id@) && has_stream,
{
    if !table.contains(id) {
        return Err(unknown_node_error(id));
    }
    if !has_stream {
        let mut m = String::new();
        push_str(&mut m, "node ");
        push_str(&mut m, id);
        push_str(&mut m, " has no live command stream");
        return Err(HpcError::InvalidState(m));
    }
    Ok(())
}

/// The acknowledgement of a dispatched command.
pub fn dispatch_ack(command_id: String, node_id: String) -> (a: DispatchAck)
    ensures
        a.accepted,
        a.command_id == command_id,
        a.node_id == node_id,
{
    DispatchAck { accepted: true, command_id, node_id }
}

pub open spec fn unknown_node_text(id: Seq<char>) -> Seq<char> {
    "unknown node "@ + id
}

fn unknown_node_api(id: &str) -> (e: ApiError)
    ensures
        is_api_error(e, STATUS_NOT_FOUND, unknown_node_text(id@)),
{
    let mut m = String::new();
    push_str(&mut m, "unknown node ");
    push_str(&mut m, id);
    ApiError { status: STATUS_NOT_FOUND, message: m }
}

/// The record of node `id`, or 404 "unknown node <id>".
pub fn lookup_node<'a, M>(table: &'a NodeTable<M>, id: &str) -> (r: Result<&'a NodeRecord<M>, ApiError>)
    requires
        table.wf(),
    ensures
        r is Ok <==> table.view().contains_key(id@),
        r matches Ok(rec) ==> *rec == table.view()[id@],
        r matches Err(e) ==> is_api_error(e, STATUS_NOT_FOUND, unknown_node_text(id@)),
{
    match table.get(id) {
        Some(rec) => Ok(rec),
        None => Err(unknown_node_api(id)),
    }
}

/// The latest metrics sample of node `id`: 404 "unknown node <id>" for an
/// unknown node, 404 "no metrics reported yet" for a node without one.
pub fn node_metrics<'a, M>(table: &'a NodeTable<M>, id: &str) -> (r: Result<&'a M, ApiError>)
    requires
        table.wf(),
    ensures
        !table.view().contains_key(id@) ==> (r matches Err(e) && is_api_error(e, STATUS_NOT_FOUND, unknown_node_text(id@))),
        table.view().contains_key(id@) ==> match table.view()[id@].latest_metrics {
            Some(m) => r matches Ok(x) && *x == m,
            None => r matches Err(e) && is_api_error(e, STATUS_NOT_FOUND, "no metrics reported yet"@),
        },
{
    match table.get(id) {
        Some(rec) => match &rec.latest_metrics {
            Some(m) => Ok(m),
            None => Err(ApiError { status: STATUS_NOT_FOUND, message: "no metrics reported yet".to_owned() }),
        },
        None => Err(unknown_node_api(id)),
    }
}

/// Administratively remove node `id` from the table; an unknown node is 404
/// "unknown node <id>".
pub fn deregister<M>(table: &mut NodeTable<M>, id: &str) -> (r: Result<(), ApiError>)
    requires
        old(table).wf(),
    ensures
        final(table).wf(),
        final(table).view() == old(table).view().remove(id@),
        r is Ok <==> old(table).view().contains_key(id@),
        r matches Err(e) ==> is_api_error(e, STATUS_NOT_FOUND, unknown_node_text(id@)),
{
    if table.remove(id) {
        Ok(())
    } else {
        Err(unknown_node_api(id))
    }
}

/// Whether an agent reporting epoch `agent_epoch` is behind a daemon at
/// `epoch`: zero means the agent has not learnt an epoch yet.
pub open spec fn epoch_mismatch(agent_epoch: u64, epoch: u64) -> bool {
    agent_epoch != 0 && agent_epoch != epoch
}

/// The directives answering a heartbeat: one "reregister" when the agent's
/// epoch is stale (the daemon restarted), and one more when the daemon does
/// not know the node.
pub open spec fn directives_for(agent_epoch: u64, epoch: u64, known: bool) -> Seq<Seq<char>> {
    (if epoch_mismatch(agent_epoch, epoch) {
        seq!["reregister"@]
    } else {
        Seq::<Seq<char>>::empty()
    }) + (if known {
        Seq::<Seq<char>>::empty()
    } else {
        seq!["reregister"@]
    })
}

/// The directives answering a heartbeat from an agent at `agent_epoch` to a
/// daemon at `epoch`, for a node the daemon knows or not.
pub fn heartbeat_directives(agent_epoch: u64, epoch: u64, known: bool) -> (d: Vec<String>)
    ensures
        string_views(d@) == directives_for(agent_epoch, epoch, known),
{
    let mut d: Vec<String> = Vec::new();
    if agent_epoch != 0 && agent_epoch != epoch {
        d.push("reregister".to_owned());
    }
    if !known {
        d.push("reregister".to_owned());
    }
    proof {
        assert(string_views(d@) =~= directives_for(agent_epoch, epoch, known));
    }
    d
}

/// A heartbeat's reply: directives only ever ask to register again, and
/// there are none exactly when the agent's epoch is current (or not yet
/// learnt) and the daemon knows the node.
pub proof fn law_heartbeat_reply(agent_epoch: u64, epoch: u64, known: bool)
    ensures
        forall|i: int|
            0 <= i < directives_for(agent_epoch, epoch, known).len() ==> #[trigger] directives_for(
                agent_epoch,
                epoch,
                known,
            )[i] == "reregister"@,
        directives_for(agent_epoch, epoch, known).len() == 0 <==> ((agent_epoch == 0 || agent_epoch
            == epoch) && known),
{
}

/// The daemon's acknowledgement of a heartbeat.
#[derive(Debug, Clone, PartialEq, Eq)]
pub struct HeartbeatAck {
    pub ok: bool,
    pub cluster_epoch: u64,
    pub directives: Vec<String>,
}

/// Answer a heartbeat from node `node_id`, whose agent reports epoch
/// `agent_epoch`, at a daemon in epoch `epoch`: record the heartbeat now
/// (an unknown node leaves the table as it was) and acknowledge with the
/// daemon's epoch and the directives. The answer is always an
/// acknowledgement; an unknown node is told to register again.
pub fn answer_heartbeat<M>(table: &mut NodeTable<M>, node_id: &str, agent_epoch: u64, epoch: u64) -> (ack: HeartbeatAck)
    requires
        old(table).wf(),
    ensures
        final(table).wf(),
        ack.ok,
        ack.cluster_epoch == epoch,
        string_views(ack.directives@) == directives_for(agent_epoch, epoch, old(table).view().contains_key(node_id@)),
        old(table).view().contains_key(node_id@) ==> exists|t: u64| final(table).view() == old(table).view().insert(
            node_id@,
            after_heartbeat(old(table).view()[node_id@], t),
        ),
        !old(table).view().contains_key(node_id@) ==> final(table).view() == old(table).view(),
{
    let known = match table.heartbeat(node_id) {
        Ok(_) => true,
        Err(_) => false,
    };
    HeartbeatAck { ok: true, cluster_epoch: epoch, directives: heartbeat_directives(agent_epoch, epoch, known) }
}

} // verus!
