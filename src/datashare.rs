use vstd::prelude::*;

use crate::typed_array::ArrayBuffer;

verus! {

/// The native side of a result set: the address of the storage engine's
/// result set object.
pub struct DataShareResultSet {
    pub native_ptr: i64,
}

impl DataShareResultSet {
    pub fn new(native_ptr: i64) -> (r: Self)
        ensures
            r.native_ptr == native_ptr,
    {
        DataShareResultSet { native_ptr }
    }
}

/// The payload of a published item: a string or a byte buffer.
pub enum PublishedItemData {
    S(String),
    ArrayBuffer(ArrayBuffer),
}

/// A published data item, keyed by name and subscriber.
pub struct PublishedItem {
    pub key: String,
    pub data: PublishedItemData,
    pub subscriber_id: String,
}

impl PublishedItem {
    pub fn new(key: String, data: PublishedItemData, subscriber_id: String) -> (r: Self)
        ensures
            r.key == key,
            r.data == data,
            r.subscriber_id == subscriber_id,
    {
        PublishedItem { key, data, subscriber_id }
    }
}

/// The outcome of one operation of a batch: its key and its result code.
pub struct OperationResult {
    pub key: String,
    pub result: i32,
}

impl OperationResult {
    pub fn new(key: String, result: i32) -> (r: Self)
        ensures
            r.key == key,
            r.result == result,
    {
        OperationResult { key, result }
    }
}

/// A subscription template: its predicates as key and value pairs, its
/// scheduler and, maybe, its update statement.
pub struct Template {
    pub predicates: Vec<(String, String)>,
    pub scheduler: String,
    pub update: Option<String>,
}

impl Template {
    /// The predicates form a map: no key appears twice.
    pub open spec fn wf(&self) -> bool {
        forall|i: int, j: int|
            0 <= i < j < self.predicates@.len() ==> self.predicates@[i].0@ != self.predicates@[j].0@
    }
}

/// How data changed.
#[derive(Clone, Copy, Debug, PartialEq, Eq, Structural)]
pub enum ChangeType {
    Insert,
    Delete,
    Update,
}

impl ChangeType {
    /// The change type of a foreign item index; an unknown index is an insert.
    pub fn from_i32(index: i32) -> (r: Self)
        ensures
            r == (if index == 1 {
                ChangeType::Delete
            } else if index == 2 {
                ChangeType::Update
            } else {
                ChangeType::Insert
            }),
    {
        match index {
            0 => ChangeType::Insert,
            1 => ChangeType::Delete,
            2 => ChangeType::Update,
            _ => ChangeType::Insert,
        }
    }
}

/// The kinds of subscription.
#[derive(Clone, Copy, Debug, PartialEq, Eq, Structural)]
pub enum SubscriptionType {
    SubscriptionTypeExactUri,
}

/// The identity of a template: its subscriber and the bundle that owns it.
pub struct TemplateId {
    pub subscriber_id: String,
    pub bundle_name_of_owner: String,
}

impl TemplateId {
    pub fn new(subscriber_id: String, bundle_name_of_owner: String) -> (r: Self)
        ensures
            r.subscriber_id == subscriber_id,
            r.bundle_name_of_owner == bundle_name_of_owner,
    {
        TemplateId { subscriber_id, bundle_name_of_owner }
    }
}

/// A change notification of a relational store: the uri, the template and
/// the changed rows.
pub struct RdbDataChangeNode {
    pub uri: String,
    pub template_id: TemplateId,
    pub data: Vec<String>,
}

impl RdbDataChangeNode {
    pub fn new(uri: String, template_id: TemplateId) -> (r: Self)
        ensures
            r.uri == uri,
            r.template_id == template_id,
            r.data@.len() == 0,
    {
        RdbDataChangeNode { uri, template_id, data: Vec::new() }
    }

    pub fn push_data(&mut self, data_item: String)
        ensures
            final(self).data@ == old(self).data@.push(data_item),
            final(self).uri == old(self).uri,
            final(self).template_id == old(self).template_id,
    {
        self.data.push(data_item);
    }
}

/// A change notification of published data: the bundle and the items.
pub struct PublishedDataChangeNode {
    pub bundle_name: String,
    pub data: Vec<PublishedItem>,
}

impl PublishedDataChangeNode {
    pub fn new(bundle_name: String) -> (r: Self)
        ensures
            r.bundle_name == bundle_name,
            r.data@.len() == 0,
    {
        PublishedDataChangeNode { bundle_name, data: Vec::new() }
    }

    pub fn push_data(&mut self, data_item: PublishedItem)
        ensures
            final(self).data@ == old(self).data@.push(data_item),
            final(self).bundle_name == old(self).bundle_name,
    {
        self.data.push(data_item);
    }
}

/// The column types of a result set.
#[derive(Clone, Copy, Debug, PartialEq, Eq, Structural)]
pub enum AniDataType {
    TypeNull,
    TypeLong,
    TypeDouble,
    TypeString,
    TypeBlob,
}

impl AniDataType {
    /// The column type of a type index; an unknown index is the null type.
    pub fn from_i32(index: i32) -> (r: Self)
        ensures
            r == AniDataType::from_i32_spec(index),
    {
        match index {
            0 => AniDataType::TypeNull,
            1 => AniDataType::TypeLong,
            2 => AniDataType::TypeDouble,
            3 => AniDataType::TypeString,
            4 => AniDataType::TypeBlob,
            _ => AniDataType::TypeNull,
        }
    }
}

/// The column type that a result set reports for a column: none without
/// a native result set, else the type of the index the storage engine gave.
pub fn get_data_type(this: &DataShareResultSet, raw_type: i32) -> (r: AniDataType)
    ensures
        this.native_ptr == 0 ==> r == AniDataType::TypeNull,
        this.native_ptr != 0 ==> r == AniDataType::from_i32_spec(raw_type),
{
    if this.native_ptr == 0 {
        AniDataType::TypeNull
    } else {
        AniDataType::from_i32(raw_type)
    }
}

impl AniDataType {
    pub open spec fn from_i32_spec(index: i32) -> AniDataType {
        if index == 1 {
            AniDataType::TypeLong
        } else if index == 2 {
            AniDataType::TypeDouble
        } else if index == 3 {
            AniDataType::TypeString
        } else if index == 4 {
            AniDataType::TypeBlob
        } else {
            AniDataType::TypeNull
        }
    }
}

/// The pointers that a native call hands to the storage engine.
pub struct EnvPtrWrap {
    pub data_share_helper_ptr: i64,
    pub callback_ptr: i64,
    pub env_ptr: i64,
}

impl EnvPtrWrap {
    pub fn new(data_share_helper_ptr: i64, callback_ptr: i64, env_ptr: i64) -> (r: Self)
        ensures
            r.data_share_helper_ptr == data_share_helper_ptr,
            r.callback_ptr == callback_ptr,
            r.env_ptr == env_ptr,
    {
        EnvPtrWrap { data_share_helper_ptr, callback_ptr, env_ptr }
    }
}

/// A version that may be absent.
pub struct VersionWrap {
    pub version_is_undefined: bool,
    pub version: i32,
}

impl VersionWrap {
    pub fn new(version_is_undefined: bool, version: i32) -> (r: Self)
        ensures
            r.version_is_undefined == version_is_undefined,
            r.version == version,
    {
        VersionWrap { version_is_undefined, version }
    }
}

} // verus!
