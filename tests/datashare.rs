use ani_rs::batch_update::{
    data_share_batch_update_param_out_error_code, data_share_batch_update_param_out_push,
    extension_batch_update_param_in_get_value, DataShareBatchUpdateParamOut,
    ExtensionBatchUpdateParamIn,
};
use ani_rs::business_error::BusinessError;
use ani_rs::datashare::{
    get_data_type, AniDataType, ChangeType, DataShareResultSet, EnvPtrWrap, OperationResult,
    PublishedItem, PublishedItemData, Template, TemplateId, VersionWrap,
};
use ani_rs::datashare_wrapper::{
    publish_sret_push, published_data_change_node_push_item_arraybuffer,
    published_data_change_node_push_item_str, published_data_sret_push_array,
    published_data_sret_push_str, published_item_get_data_arraybuffer,
    published_item_get_data_string, published_item_get_data_type, published_item_get_key,
    published_item_get_subscriber_id, rdb_data_change_node_push_data,
    rust_create_published_data_change_node, rust_create_rdb_data_change_node,
    template_get_predicates, template_get_scheduler, template_get_update,
    template_id_get_bundle_name_of_owner, template_id_get_subscriber_id,
    template_predicates_get_key, template_predicates_get_value, EnumType,
    GetPublishedDataSretParam, PublishSretParam,
};
use ani_rs::typed_array::{ArrayBuffer, TypedArray, Uint8Array};

#[test]
fn change_type_from_index() {
    assert_eq!(ChangeType::from_i32(0), ChangeType::Insert);
    assert_eq!(ChangeType::from_i32(1), ChangeType::Delete);
    assert_eq!(ChangeType::from_i32(2), ChangeType::Update);
    assert_eq!(ChangeType::from_i32(9), ChangeType::Insert);
}

#[test]
fn data_type_from_index() {
    assert_eq!(AniDataType::from_i32(0), AniDataType::TypeNull);
    assert_eq!(AniDataType::from_i32(1), AniDataType::TypeLong);
    assert_eq!(AniDataType::from_i32(2), AniDataType::TypeDouble);
    assert_eq!(AniDataType::from_i32(3), AniDataType::TypeString);
    assert_eq!(AniDataType::from_i32(4), AniDataType::TypeBlob);
    assert_eq!(AniDataType::from_i32(-1), AniDataType::TypeNull);
    assert_eq!(get_data_type(&DataShareResultSet::new(0), 3), AniDataType::TypeNull);
    assert_eq!(get_data_type(&DataShareResultSet::new(8), 3), AniDataType::TypeString);
}

#[test]
fn business_error_codes() {
    assert_eq!(BusinessError::permission().code(), 201);
    assert_eq!(BusinessError::permission().message(), "Permission denied");
    assert_eq!(BusinessError::parameter().code(), 401);
    assert_eq!(BusinessError::new(15, String::from("m")).message(), "m");
    assert_eq!(BusinessError::new_static(3, "s").code(), 3);
}

#[test]
fn byte_sizes_of_typed_arrays() {
    assert_eq!(TypedArray::Int8.get_byte_size(), 1);
    assert_eq!(TypedArray::Uint16.get_byte_size(), 2);
    assert_eq!(TypedArray::Int32.get_byte_size(), 4);
    let b = ArrayBuffer::new_with_vec(vec![1, 2, 3]);
    assert_eq!(b.len(), 3);
    assert_eq!(b.to_vec(), vec![1, 2, 3]);
    let u = Uint8Array::new_with_vec(vec![4, 5]);
    assert_eq!(u.len(), 2);
    assert_eq!(u.to_vec(), vec![4, 5]);
}

#[test]
fn published_items_report_their_payload() {
    let s = PublishedItem::new(
        String::from("k"),
        PublishedItemData::S(String::from("v")),
        String::from("sub"),
    );
    assert_eq!(published_item_get_key(&s), "k");
    assert_eq!(published_item_get_subscriber_id(&s), "sub");
    assert_eq!(published_item_get_data_type(&s), EnumType::StringType);
    assert_eq!(published_item_get_data_string(&s), "v");
    let a = PublishedItem::new(
        String::from("k2"),
        PublishedItemData::ArrayBuffer(ArrayBuffer::new_with_vec(vec![1, 2])),
        String::from("sub2"),
    );
    assert_eq!(published_item_get_data_type(&a), EnumType::ArrayBufferType);
    assert_eq!(published_item_get_data_arraybuffer(&a), &[1u8, 2][..]);
}

#[test]
fn publish_results_are_gathered_in_order() {
    let mut p = PublishSretParam::new();
    publish_sret_push(&mut p, String::from("a"), 0);
    publish_sret_push(&mut p, String::from("b"), -1);
    let v: Vec<OperationResult> = p.into_inner();
    assert_eq!(v.len(), 2);
    assert_eq!(v[1].key, "b");
    assert_eq!(v[1].result, -1);
}

#[test]
fn published_data_becomes_items() {
    let mut p = GetPublishedDataSretParam::new();
    published_data_sret_push_str(&mut p, String::from("k"), String::from("s"), String::from("v"));
    published_data_sret_push_array(&mut p, String::from("k2"), String::from("s2"), vec![7, 8]);
    let items = p.transform_to_item();
    assert_eq!(items.len(), 2);
    assert_eq!(published_item_get_data_string(&items[0]), "v");
    assert_eq!(published_item_get_data_arraybuffer(&items[1]), &[7u8, 8][..]);
    assert_eq!(items[1].subscriber_id, "s2");
}

#[test]
fn template_accessors() {
    let t = Template {
        predicates: vec![(String::from("p"), String::from("select 1"))],
        scheduler: String::from("sched"),
        update: None,
    };
    assert_eq!(template_get_scheduler(&t), "sched");
    assert_eq!(template_get_update(&t), "");
    let preds = template_get_predicates(&t);
    assert_eq!(preds.len(), 1);
    assert_eq!(template_predicates_get_key(&preds[0]), "p");
    assert_eq!(template_predicates_get_value(&preds[0]), "select 1");
    let t2 = Template { predicates: vec![], scheduler: String::new(), update: Some(String::from("u")) };
    assert_eq!(template_get_update(&t2), "u");
}

#[test]
fn change_nodes_collect_data() {
    let mut node = rust_create_rdb_data_change_node(
        String::from("uri"),
        String::from("sub"),
        String::from("owner"),
    );
    rdb_data_change_node_push_data(&mut node, String::from("row"));
    assert_eq!(node.data, vec![String::from("row")]);
    assert_eq!(template_id_get_subscriber_id(&node.template_id), "sub");
    assert_eq!(template_id_get_bundle_name_of_owner(&node.template_id), "owner");
    let id = TemplateId::new(String::from("a"), String::from("b"));
    assert_eq!(id.bundle_name_of_owner, "b");

    let mut p = rust_create_published_data_change_node(String::from("bundle"));
    published_data_change_node_push_item_str(&mut p, String::from("k"), String::from("v"), String::from("s"));
    published_data_change_node_push_item_arraybuffer(&mut p, String::from("k2"), vec![3], String::from("s2"));
    assert_eq!(p.data.len(), 2);
    assert_eq!(p.bundle_name, "bundle");
    assert_eq!(published_item_get_data_type(&p.data[1]), EnumType::ArrayBufferType);
}

#[test]
fn batch_results_replace_by_key() {
    let mut out = DataShareBatchUpdateParamOut::new();
    data_share_batch_update_param_out_push(&mut out, String::from("a"), vec![1]);
    data_share_batch_update_param_out_push(&mut out, String::from("b"), vec![2, 3]);
    data_share_batch_update_param_out_push(&mut out, String::from("a"), vec![4]);
    assert_eq!(out.as_ref().len(), 2);
    assert_eq!(out.as_ref()[0], (String::from("a"), vec![4]));
    data_share_batch_update_param_out_error_code(&mut out, 5);
    assert_eq!(out.error_code, 5);
}

#[test]
fn batch_values_are_laid_out_flat() {
    let mut input = ExtensionBatchUpdateParamIn::new();
    input.data.push((String::from("x"), vec![1, 2]));
    input.data.push((String::from("y"), vec![]));
    input.data.push((String::from("z"), vec![3]));
    let mut keys = Vec::new();
    let mut values = Vec::new();
    let mut steps = Vec::new();
    extension_batch_update_param_in_get_value(&input, &mut keys, &mut values, &mut steps);
    assert_eq!(keys, vec![String::from("x"), String::from("y"), String::from("z")]);
    assert_eq!(values, vec![1, 2, 3]);
    assert_eq!(steps, vec![2, 0, 1]);
    assert_eq!(input.as_ref().len(), 3);
}

#[test]
fn wrappers_keep_their_fields() {
    let e = EnvPtrWrap::new(1, 2, 3);
    assert_eq!((e.data_share_helper_ptr, e.callback_ptr, e.env_ptr), (1, 2, 3));
    let v = VersionWrap::new(true, 4);
    assert!(v.version_is_undefined);
    assert_eq!(v.version, 4);
}
