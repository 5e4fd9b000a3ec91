//! Creating and editing saved replay requests and their groups: what a new
//! record holds, and which fields an edit changes.
use vstd::prelude::*;
use crate::replay::{ReplayRequest, ReplayGroup, RequestType, RequestSource, KeyValueItem, ReplayBody};

verus! {

/// The fields of a new saved request.
#[derive(Debug, Clone)]
pub struct CreateRequestRequest {
    pub group_id: Option<String>,
    pub name: Option<String>,
    pub request_type: RequestType,
    pub method: String,
    pub url: String,
    pub headers: Vec<KeyValueItem>,
    pub body: Option<ReplayBody>,
    pub is_saved: bool,
}

/// The fields an edit of a saved request may set; absent ones are kept.
#[derive(Debug, Clone)]
pub struct UpdateRequestRequest {
    pub group_id: Option<String>,
    pub name: Option<String>,
    pub request_type: Option<RequestType>,
    pub method: Option<String>,
    pub url: Option<String>,
    pub headers: Option<Vec<KeyValueItem>>,
    pub body: Option<ReplayBody>,
    pub is_saved: Option<bool>,
    pub sort_order: Option<i32>,
}

/// The fields of a new group.
#[derive(Debug, Clone)]
pub struct CreateGroupRequest {
    pub name: String,
    pub parent_id: Option<String>,
}

/// The fields an edit of a group may set; absent ones are kept.
#[derive(Debug, Clone)]
pub struct UpdateGroupRequest {
    pub name: Option<String>,
    pub parent_id: Option<String>,
    pub sort_order: Option<i32>,
}

/// `Some` value of an optional edit, or the kept value.
pub open spec fn edited<T>(edit: Option<T>, kept: T) -> T {
    match edit {
        Some(v) => v,
        None => kept,
    }
}

/// An optional field that an edit replaces only when the edit sets it.
pub open spec fn edited_opt<T>(edit: Option<T>, kept: Option<T>) -> Option<T> {
    if edit is Some { edit } else { kept }
}

/// A new saved request made from its fields, with identifier `id`, made at
/// `now` (milliseconds): first in its group, created inside the application.
pub fn new_saved_request(create: CreateRequestRequest, id: String, now: u64) -> (r: ReplayRequest)
    ensures
        r.id == id,
        r.group_id == create.group_id,
        r.name == create.name,
        r.request_type == create.request_type,
        r.method == create.method,
        r.url == create.url,
        r.headers == create.headers,
        r.body == create.body,
        r.is_saved == create.is_saved,
        r.sort_order == 0,
        r.source == RequestSource::Internal,
        r.created_at == now,
        r.updated_at == now,
{
    ReplayRequest {
        id,
        group_id: create.group_id,
        name: create.name,
        request_type: create.request_type,
        method: create.method,
        url: create.url,
        headers: create.headers,
        body: create.body,
        is_saved: create.is_saved,
        sort_order: 0,
        source: RequestSource::Internal,
        created_at: now,
        updated_at: now,
    }
}

/// Applies an edit to a saved request at `now`: each field the edit sets
/// replaces the stored one, the others stay; the edit time is `now`.
pub fn apply_request_update(request: &mut ReplayRequest, update: UpdateRequestRequest, now: u64)
    ensures
        final(request).id == old(request).id,
        final(request).group_id == edited_opt(update.group_id, old(request).group_id),
        final(request).name == edited_opt(update.name, old(request).name),
        final(request).request_type == edited(update.request_type, old(request).request_type),
        final(request).method == edited(update.method, old(request).method),
        final(request).url == edited(update.url, old(request).url),
        final(request).headers == edited(update.headers, old(request).headers),
        final(request).body == edited_opt(update.body, old(request).body),
        final(request).is_saved == edited(update.is_saved, old(request).is_saved),
        final(request).sort_order == edited(update.sort_order, old(request).sort_order),
        final(request).source == old(request).source,
        final(request).created_at == old(request).created_at,
        final(request).updated_at == now,
{
    if update.group_id.is_some() {
        request.group_id = update.group_id;
    }
    if let Some(name) = update.name {
        request.name = Some(name);
    }
    if let Some(request_type) = update.request_type {
        request.request_type = request_type;
    }
    if let Some(method) = update.method {
        request.method = method;
    }
    if let Some(url) = update.url {
        request.url = url;
    }
    if let Some(headers) = update.headers {
        request.headers = headers;
    }
    if update.body.is_some() {
        request.body = update.body;
    }
    if let Some(is_saved) = update.is_saved {
        request.is_saved = is_saved;
    }
    if let Some(sort_order) = update.sort_order {
        request.sort_order = sort_order;
    }
    request.updated_at = now;
}

/// A new group made from its fields, with identifier `id`, made at `now`.
pub fn new_group(create: CreateGroupRequest, id: String, now: u64) -> (g: ReplayGroup)
    ensures
        g.id == id,
        g.name == create.name,
        g.parent_id == create.parent_id,
        g.sort_order == 0,
        g.created_at == now,
        g.updated_at == now,
{
    ReplayGroup { id, name: create.name, parent_id: create.parent_id, sort_order: 0, created_at: now, updated_at: now }
}

/// Applies an edit to a group at `now`: each field the edit sets replaces
/// the stored one, the others stay; the edit time is `now`.
pub fn apply_group_update(group: &mut ReplayGroup, update: UpdateGroupRequest, now: u64)
    ensures
        final(group).id == old(group).id,
        final(group).name == edited(update.name, old(group).name),
        final(group).parent_id == edited_opt(update.parent_id, old(group).parent_id),
        final(group).sort_order == edited(update.sort_order, old(group).sort_order),
        final(group).created_at == old(group).created_at,
        final(group).updated_at == now,
{
    if let Some(name) = update.name {
        group.name = name;
    }
    if let Some(parent_id) = update.parent_id {
        group.parent_id = Some(parent_id);
    }
    if let Some(sort_order) = update.sort_order {
        group.sort_order = sort_order;
    }
    group.updated_at = now;
}

} // verus!
