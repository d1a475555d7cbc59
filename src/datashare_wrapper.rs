use vstd::prelude::*;

use crate::datashare::{
    OperationResult, PublishedDataChangeNode, PublishedItem, PublishedItemData, RdbDataChangeNode,
    Template, TemplateId,
};
use crate::typed_array::ArrayBuffer;

verus! {

/// The value kinds that cross to the storage engine.
#[derive(Clone, Copy, Debug, PartialEq, Eq, Structural)]
pub enum EnumType {
    StringType,
    F64Type,
    BooleanType,
    Uint8ArrayType,
    NullType,
    ArrayBufferType,
}

/// The results of a publish call, gathered one operation at a time.
pub struct PublishSretParam(pub Vec<OperationResult>);

impl PublishSretParam {
    pub fn new() -> (r: Self)
        ensures
            r.0@.len() == 0,
    {
        PublishSretParam(Vec::new())
    }

    pub fn into_inner(self) -> (r: Vec<OperationResult>)
        ensures
            r == self.0,
    {
        self.0
    }
}

pub fn publish_sret_push(sret: &mut PublishSretParam, key: String, result: i32)
    ensures
        final(sret).0@.len() == old(sret).0@.len() + 1,
        final(sret).0@.drop_last() == old(sret).0@,
        final(sret).0@.last().key == key,
        final(sret).0@.last().result == result,
{
    sret.0.push(OperationResult::new(key, result));
    assert(sret.0@.drop_last() =~= old(sret).0@);
}

pub fn published_item_get_key(item: &PublishedItem) -> (r: String)
    ensures
        r == item.key,
{
    item.key.clone()
}

pub fn published_item_get_subscriber_id(item: &PublishedItem) -> (r: String)
    ensures
        r == item.subscriber_id,
{
    item.subscriber_id.clone()
}

pub fn published_item_get_data_type(item: &PublishedItem) -> (r: EnumType)
    ensures
        r == (if item.data is S {
            EnumType::StringType
        } else {
            EnumType::ArrayBufferType
        }),
{
    match &item.data {
        PublishedItemData::S(_) => EnumType::StringType,
        PublishedItemData::ArrayBuffer(_) => EnumType::ArrayBufferType,
    }
}

/// The string payload of an item that carries a string.
pub fn published_item_get_data_string(item: &PublishedItem) -> (r: String)
    requires
        item.data is S,
    ensures
        r == item.data->S_0,
{
    match &item.data {
        PublishedItemData::S(s) => s.clone(),
        PublishedItemData::ArrayBuffer(_) => String::new(),
    }
}

/// The bytes of an item that carries a byte buffer.
pub fn published_item_get_data_arraybuffer(item: &PublishedItem) -> (r: &[u8])
    requires
        item.data is ArrayBuffer,
    ensures
        r@ == (item.data->ArrayBuffer_0)@,
{
    match &item.data {
        PublishedItemData::ArrayBuffer(b) => b.as_slice(),
        PublishedItemData::S(_) => &[],
    }
}

/// One published item as the storage engine reports it: a string payload
/// or a byte payload, as `is_data_str` says.
pub struct GetPublishedDataSretParamHelper {
    pub key: String,
    pub subscriber_id: String,
    pub is_data_str: bool,
    pub data_str: Option<String>,
    pub data_arr: Option<Vec<u8>>,
}

impl GetPublishedDataSretParamHelper {
    /// The payload that `is_data_str` names is present.
    pub open spec fn consistent(&self) -> bool {
        if self.is_data_str {
            self.data_str is Some
        } else {
            self.data_arr is Some
        }
    }
}

/// The items of a get-published-data call, gathered one at a time.
pub struct GetPublishedDataSretParam(pub Vec<GetPublishedDataSretParamHelper>);

impl GetPublishedDataSretParam {
    pub open spec fn wf(&self) -> bool {
        forall|i: int| 0 <= i < self.0@.len() ==> (#[trigger] self.0@[i]).consistent()
    }

    pub fn new() -> (r: Self)
        ensures
            r.0@.len() == 0,
            r.wf(),
    {
        GetPublishedDataSretParam(Vec::new())
    }

    /// The gathered items, each with the payload that its helper names.
    pub fn transform_to_item(&self) -> (r: Vec<PublishedItem>)
        requires
            self.wf(),
        ensures
            r@.len() == self.0@.len(),
            forall|i: int|
                #![trigger r@[i]]
                0 <= i < r@.len() ==> {
                    let h = self.0@[i];
                    &&& r@[i].key == h.key
                    &&& r@[i].subscriber_id == h.subscriber_id
                    &&& if h.is_data_str {
                        r@[i].data == PublishedItemData::S(h.data_str->Some_0)
                    } else {
                        r@[i].data matches PublishedItemData::ArrayBuffer(b) && b@ == h.data_arr->Some_0@
                    }
                },
    {
        let mut res: Vec<PublishedItem> = Vec::new();
        let mut i: usize = 0;
        while i < self.0.len()
            invariant
                self.wf(),
                i <= self.0@.len(),
                res@.len() == i,
                forall|j: int|
                    #![trigger res@[j]]
                    0 <= j < i ==> {
                        let h = self.0@[j];
                        &&& res@[j].key == h.key
                        &&& res@[j].subscriber_id == h.subscriber_id
                        &&& if h.is_data_str {
                            res@[j].data == PublishedItemData::S(h.data_str->Some_0)
                        } else {
                            res@[j].data matches PublishedItemData::ArrayBuffer(b) && b@ == h.data_arr->Some_0@
                        }
                    },
            decreases self.0@.len() - i,
        {
            let help = &self.0[i];
            assert(help.consistent());
            let data = if help.is_data_str {
                match &help.data_str {
                    Some(s) => PublishedItemData::S(s.clone()),
                    None => PublishedItemData::S(String::new()),
                }
            } else {
                match &help.data_arr {
                    Some(a) => PublishedItemData::ArrayBuffer(
                        ArrayBuffer::new_with_vec(vstd::slice::slice_to_vec(a.as_slice())),
                    ),
                    None => PublishedItemData::ArrayBuffer(ArrayBuffer::new_with_vec(Vec::new())),
                }
            };
            res.push(PublishedItem::new(help.key.clone(), data, help.subscriber_id.clone()));
            i = i + 1;
        }
        res
    }
}

pub fn published_data_sret_push_str(
    sret: &mut GetPublishedDataSretParam,
    key: String,
    subscriber_id: String,
    data_str: String,
)
    requires
        old(sret).wf(),
    ensures
        final(sret).wf(),
        final(sret).0@ == old(sret).0@.push(
            GetPublishedDataSretParamHelper {
                key,
                subscriber_id,
                is_data_str: true,
                data_str: Some(data_str),
                data_arr: None,
            },
        ),
{
    let item = GetPublishedDataSretParamHelper {
        key,
        subscriber_id,
        is_data_str: true,
        data_str: Some(data_str),
        data_arr: None,
    };
    sret.0.push(item);
    assert forall|i: int| 0 <= i < sret.0@.len() implies (#[trigger] sret.0@[i]).consistent() by {
        if i < old(sret).0@.len() {
            assert(sret.0@[i] == old(sret).0@[i]);
        }
    }
}

pub fn published_data_sret_push_array(
    sret: &mut GetPublishedDataSretParam,
    key: String,
    subscriber_id: String,
    data_buffer: Vec<u8>,
)
    requires
        old(sret).wf(),
    ensures
        final(sret).wf(),
        final(sret).0@ == old(sret).0@.push(
            GetPublishedDataSretParamHelper {
                key,
                subscriber_id,
                is_data_str: false,
                data_str: None,
                data_arr: Some(data_buffer),
            },
        ),
{
    let item = GetPublishedDataSretParamHelper {
        key,
        subscriber_id,
        is_data_str: false,
        data_str: None,
        data_arr: Some(data_buffer),
    };
    sret.0.push(item);
    assert forall|i: int| 0 <= i < sret.0@.len() implies (#[trigger] sret.0@[i]).consistent() by {
        if i < old(sret).0@.len() {
            assert(sret.0@[i] == old(sret).0@[i]);
        }
    }
}

pub fn template_get_scheduler(temp: &Template) -> (r: String)
    ensures
        r == temp.scheduler,
{
    temp.scheduler.clone()
}

/// The update statement of a template; empty when it has none.
pub fn template_get_update(temp: &Template) -> (r: String)
    ensures
        match temp.update {
            Some(s) => r == s,
            None => r@.len() == 0,
        },
{
    match &temp.update {
        Some(s) => s.clone(),
        None => String::new(),
    }
}

/// One predicate of a template.
pub struct TemplatePredicatesKvItem {
    pub key: String,
    pub value: String,
}

pub fn template_get_predicates(temp: &Template) -> (r: Vec<TemplatePredicatesKvItem>)
    requires
        temp.wf(),
    ensures
        r@.len() == temp.predicates@.len(),
        forall|i: int, j: int| 0 <= i < j < r@.len() ==> r@[i].key@ != r@[j].key@,
        forall|i: int|
            #![trigger r@[i]]
            0 <= i < r@.len() ==> r@[i].key == temp.predicates@[i].0 && r@[i].value
                == temp.predicates@[i].1,
{
    let mut res: Vec<TemplatePredicatesKvItem> = Vec::new();
    let mut i: usize = 0;
    while i < temp.predicates.len()
        invariant
            i <= temp.predicates@.len(),
            res@.len() == i,
            forall|j: int|
                #![trigger res@[j]]
                0 <= j < i ==> res@[j].key == temp.predicates@[j].0 && res@[j].value
                    == temp.predicates@[j].1,
        decreases temp.predicates@.len() - i,
    {
        res.push(
            TemplatePredicatesKvItem {
                key: temp.predicates[i].0.clone(),
                value: temp.predicates[i].1.clone(),
            },
        );
        i = i + 1;
    }
    res
}

pub fn template_predicates_get_key(kv: &TemplatePredicatesKvItem) -> (r: &String)
    ensures
        *r == kv.key,
{
    &kv.key
}

pub fn template_predicates_get_value(kv: &TemplatePredicatesKvItem) -> (r: &String)
    ensures
        *r == kv.value,
{
    &kv.value
}

pub fn template_id_get_subscriber_id(template_id: &TemplateId) -> (r: &String)
    ensures
        *r == template_id.subscriber_id,
{
    &template_id.subscriber_id
}

pub fn template_id_get_bundle_name_of_owner(template_id: &TemplateId) -> (r: &String)
    ensures
        *r == template_id.bundle_name_of_owner,
{
    &template_id.bundle_name_of_owner
}

pub fn rust_create_rdb_data_change_node(
    uri: String,
    subscriber_id: String,
    bundle_name_of_owner: String,
) -> (r: Box<RdbDataChangeNode>)
    ensures
        r.uri == uri,
        r.template_id.subscriber_id == subscriber_id,
        r.template_id.bundle_name_of_owner == bundle_name_of_owner,
        r.data@.len() == 0,
{
    let template_id = TemplateId::new(subscriber_id, bundle_name_of_owner);
    Box::new(RdbDataChangeNode::new(uri, template_id))
}

pub fn rdb_data_change_node_push_data(node: &mut RdbDataChangeNode, data_item: String)
    ensures
        final(node).data@ == old(node).data@.push(data_item),
        final(node).uri == old(node).uri,
        final(node).template_id == old(node).template_id,
{
    node.push_data(data_item);
}

pub fn rust_create_published_data_change_node(bundle_name: String) -> (r: Box<PublishedDataChangeNode>)
    ensures
        r.bundle_name == bundle_name,
        r.data@.len() == 0,
{
    Box::new(PublishedDataChangeNode::new(bundle_name))
}

pub fn published_data_change_node_push_item_str(
    node: &mut PublishedDataChangeNode,
    key: String,
    data: String,
    subscriber_id: String,
)
    ensures
        final(node).bundle_name == old(node).bundle_name,
        final(node).data@ == old(node).data@.push(
            PublishedItem { key, data: PublishedItemData::S(data), subscriber_id },
        ),
{
    let item = PublishedItem::new(key, PublishedItemData::S(data), subscriber_id);
    node.push_data(item);
}

pub fn published_data_change_node_push_item_arraybuffer(
    node: &mut PublishedDataChangeNode,
    key: String,
    data: Vec<u8>,
    subscriber_id: String,
)
    ensures
        final(node).bundle_name == old(node).bundle_name,
        final(node).data@.len() == old(node).data@.len() + 1,
        final(node).data@.drop_last() == old(node).data@,
        final(node).data@.last().key == key,
        final(node).data@.last().subscriber_id == subscriber_id,
        final(node).data@.last().data matches PublishedItemData::ArrayBuffer(b) && b@ == data@,
{
    let arr = ArrayBuffer::new_with_vec(data);
    let item = PublishedItem::new(key, PublishedItemData::ArrayBuffer(arr), subscriber_id);
    node.push_data(item);
    assert(node.data@.drop_last() =~= old(node).data@);
}

} // verus!
