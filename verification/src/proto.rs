//! Wire numbering of the control-plane enums and the conversions between the
//! domain enums and their protobuf discriminants.
//!
//! The protocol (`package hpc.v1`) numbers each enum from an `UNSPECIFIED = 0`
//! member followed by the members in declaration order. Decoding maps
//! unknown numbers to the protocol default (the `0` member).
use vstd::prelude::*;

use crate::types::{DeployAction, FsAction, NodeRole};

verus! {

/// The wire number of a node role.
pub open spec fn role_number(r: NodeRole) -> i32 {
    match r {
        NodeRole::Unspecified => 0,
        NodeRole::Storage => 1,
        NodeRole::Compute => 2,
        NodeRole::Metadata => 3,
        NodeRole::Gateway => 4,
    }
}

/// The node role a wire number denotes; unknown numbers decode as
/// `Unspecified`.
pub open spec fn role_of_number(v: i32) -> NodeRole {
    if v == 1 {
        NodeRole::Storage
    } else if v == 2 {
        NodeRole::Compute
    } else if v == 3 {
        NodeRole::Metadata
    } else if v == 4 {
        NodeRole::Gateway
    } else {
        NodeRole::Unspecified
    }
}

/// The wire number of a deploy action (`0` is the unspecified action).
pub open spec fn deploy_action_number(a: DeployAction) -> i32 {
    match a {
        DeployAction::Install => 1,
        DeployAction::Upgrade => 2,
        DeployAction::Rollback => 3,
        DeployAction::Remove => 4,
    }
}

/// The deploy action a wire number denotes; the unspecified action and
/// unknown numbers decode as `Install`.
pub open spec fn deploy_action_of_number(v: i32) -> DeployAction {
    if v == 2 {
        DeployAction::Upgrade
    } else if v == 3 {
        DeployAction::Rollback
    } else if v == 4 {
        DeployAction::Remove
    } else {
        DeployAction::Install
    }
}

/// The wire number of a filesystem action (`0` is the unspecified action).
pub open spec fn fs_action_number(a: FsAction) -> i32 {
    match a {
        FsAction::Mount => 1,
        FsAction::Unmount => 2,
        FsAction::Remount => 3,
        FsAction::Check => 4,
        FsAction::Format => 5,
    }
}

/// The filesystem action a wire number denotes; the unspecified action and
/// unknown numbers decode as `Mount`.
pub open spec fn fs_action_of_number(v: i32) -> FsAction {
    if v == 2 {
        FsAction::Unmount
    } else if v == 3 {
        FsAction::Remount
    } else if v == 4 {
        FsAction::Check
    } else if v == 5 {
        FsAction::Format
    } else {
        FsAction::Mount
    }
}

/// Convert a domain [`NodeRole`] into the protobuf discriminant.
pub fn role_to_pb(r: NodeRole) -> (v: i32)
    ensures
        v == role_number(r),
{
    match r {
        NodeRole::Unspecified => 0,
        NodeRole::Storage => 1,
        NodeRole::Compute => 2,
        NodeRole::Metadata => 3,
        NodeRole::Gateway => 4,
    }
}

/// Convert a protobuf discriminant back into a domain [`NodeRole`],
/// treating unknown values as `Unspecified`.
pub fn role_from_pb(v: i32) -> (r: NodeRole)
    ensures
        r == role_of_number(v),
{
    match v {
        1 => NodeRole::Storage,
        2 => NodeRole::Compute,
        3 => NodeRole::Metadata,
        4 => NodeRole::Gateway,
        _ => NodeRole::Unspecified,
    }
}

/// Convert a domain [`DeployAction`] to its protobuf value.
pub fn deploy_action_to_pb(a: DeployAction) -> (v: i32)
    ensures
        v == deploy_action_number(a),
{
    match a {
        DeployAction::Install => 1,
        DeployAction::Upgrade => 2,
        DeployAction::Rollback => 3,
        DeployAction::Remove => 4,
    }
}

/// Convert a protobuf deploy action to the domain type (defaulting to
/// `Install`).
pub fn deploy_action_from_pb(v: i32) -> (a: DeployAction)
    ensures
        a == deploy_action_of_number(v),
{
    match v {
        2 => DeployAction::Upgrade,
        3 => DeployAction::Rollback,
        4 => DeployAction::Remove,
        _ => DeployAction::Install,
    }
}

/// Convert a domain [`FsAction`] to its protobuf value.
pub fn fs_action_to_pb(a: FsAction) -> (v: i32)
    ensures
        v == fs_action_number(a),
{
    match a {
        FsAction::Mount => 1,
        FsAction::Unmount => 2,
        FsAction::Remount => 3,
        FsAction::Check => 4,
        FsAction::Format => 5,
    }
}

/// Convert a protobuf filesystem action to the domain type (defaulting to
/// `Mount`).
pub fn fs_action_from_pb(v: i32) -> (a: FsAction)
    ensures
        a == fs_action_of_number(v),
{
    match v {
        2 => FsAction::Unmount,
        3 => FsAction::Remount,
        4 => FsAction::Check,
        5 => FsAction::Format,
        _ => FsAction::Mount,
    }
}

/// Decoding the encoding of a node role gives the role back, and distinct
/// roles have distinct encodings.
pub proof fn role_roundtrip(r: NodeRole, s: NodeRole)
    ensures
        role_of_number(role_number(r)) == r,
        r != s ==> role_number(r) != role_number(s),
{
}

/// Decoding the encoding of a deploy action gives the action back, and the
/// encoding never uses the unspecified number `0`.
pub proof fn deploy_action_roundtrip(a: DeployAction)
    ensures
        deploy_action_of_number(deploy_action_number(a)) == a,
        deploy_action_number(a) != 0,
{
}

/// Decoding the encoding of a filesystem action gives the action back, and
/// the encoding never uses the unspecified number `0`.
pub proof fn fs_action_roundtrip(a: FsAction)
    ensures
        fs_action_of_number(fs_action_number(a)) == a,
        fs_action_number(a) != 0,
{
}

/// Every known wire number survives a decode/encode round trip: `0..=4` for
/// roles, `1..=4` for deploy actions and `1..=5` for filesystem actions.
pub proof fn known_numbers_roundtrip(v: i32)
    ensures
        0 <= v <= 4 ==> role_number(role_of_number(v)) == v,
        1 <= v <= 4 ==> deploy_action_number(deploy_action_of_number(v)) == v,
        1 <= v <= 5 ==> fs_action_number(fs_action_of_number(v)) == v,
{
}

} // verus!
