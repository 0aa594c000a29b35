use cw_entity::contract::{execute, instantiate};
use cw_entity::document::{Document, Field};
use cw_entity::error::{ContractError, ErrorKind};
use cw_entity::execute::create::exec_create;
use cw_entity::execute::delete::exec_delete;
use cw_entity::execute::set_metadata::exec_set_metadata;
use cw_entity::execute::set_operator::exec_set_operator;
use cw_entity::execute::update::exec_update;
use cw_entity::msg::{
    CreateArgs, DeleteArgs, ExecuteMsg, IndexBound, InstantiateMsg, ReadArgs, ReadTarget,
    UpdateArgs, UpdateMode,
};
use cw_entity::query::info::query_info;
use cw_entity::query::read::{query_read, read};
use cw_entity::responses::{Attribute, Entity};
use cw_entity::schema::{EntityProperty, EntityPropertyParams, EntitySchema};
use cw_entity::state::{CollectionMetadata, ExecuteContext, QueryContext};
use cw_entity::store::Store;

fn object(members: Vec<(&str, Document)>) -> Document {
    Document::Object(
        members
            .into_iter()
            .map(|(name, value)| Field { name: name.to_string(), value })
            .collect(),
    )
}

fn property(name: &str, value: EntityPropertyParams, indexed: bool, required: bool) -> EntityProperty {
    EntityProperty {
        indexed: Some(indexed),
        required: Some(required),
        value,
        name: name.to_string(),
    }
}

fn score_schema() -> EntitySchema {
    EntitySchema {
        name: "players".to_string(),
        properties: vec![property("score", EntityPropertyParams::U32 {}, true, false)],
    }
}

fn collection(schema: EntitySchema) -> ExecuteContext {
    let mut ctx = ExecuteContext::new(Store::new(), 1_000, "operator".to_string());
    instantiate(
        &mut ctx,
        InstantiateMsg { schema, operator: None, metadata: None },
    )
    .unwrap();
    ctx
}

fn scores(ctx: &mut ExecuteContext, rows: &[(u64, u64)]) {
    for (id, score) in rows {
        exec_create(
            ctx,
            CreateArgs { id: *id, data: object(vec![("score", Document::Unsigned(*score))]) },
        )
        .unwrap();
    }
}

fn by_index(
    cursor: Option<Vec<u8>>,
    start: Option<IndexBound>,
    stop: Option<IndexBound>,
    limit: Option<u8>,
    desc: Option<bool>,
) -> ReadArgs {
    ReadArgs {
        target: ReadTarget::Index { property: "score".to_string(), cursor, start, stop, limit },
        desc,
        select: None,
    }
}

fn ids(entities: &[Entity]) -> Vec<u64> {
    entities.iter().map(|e| e.id).collect()
}

fn kind_and_reason(error: &ContractError) -> (ErrorKind, String) {
    (error.kind(), error.reason().clone())
}

#[test]
fn instantiate_sets_the_collection_up() {
    let ctx = collection(score_schema());
    assert_eq!(ctx.store.size(), 0);
    assert_eq!(ctx.store.operator(), Some(&"operator".to_string()));
    assert_eq!(ctx.store.schema().properties.len(), 1);
    assert_eq!(ctx.store.metadata().name, None);
}

#[test]
fn instantiate_takes_the_named_operator() {
    let mut ctx = ExecuteContext::new(Store::new(), 5, "sender".to_string());
    let response = instantiate(
        &mut ctx,
        InstantiateMsg {
            schema: score_schema(),
            operator: Some("owner".to_string()),
            metadata: Some(CollectionMetadata {
                name: Some("n".to_string()),
                description: None,
                website: None,
            }),
        },
    )
    .unwrap();
    assert_eq!(
        response.attributes,
        vec![Attribute { key: "action".to_string(), value: "instantiate".to_string() }]
    );
    assert_eq!(ctx.store.operator(), Some(&"owner".to_string()));
    assert_eq!(ctx.store.metadata().name, Some("n".to_string()));
}

#[test]
fn instantiate_refuses_a_name_declared_twice() {
    let mut ctx = ExecuteContext::new(Store::new(), 5, "sender".to_string());
    let schema = EntitySchema {
        name: "twice".to_string(),
        properties: vec![
            property("a", EntityPropertyParams::U8 {}, false, false),
            property("a", EntityPropertyParams::Bool {}, false, false),
        ],
    };
    let error = instantiate(&mut ctx, InstantiateMsg { schema, operator: None, metadata: None })
        .unwrap_err();
    assert_eq!(
        kind_and_reason(&error),
        (ErrorKind::ValidationError, "schema declares a property more than once".to_string())
    );
    assert_eq!(ctx.store.operator(), None);
}

#[test]
fn create_then_read_by_id_returns_the_document() {
    let mut ctx = collection(score_schema());
    let document = object(vec![
        ("score", Document::Unsigned(7)),
        ("tags", Document::Array(vec![Document::String("a".to_string()), Document::Null])),
    ]);
    let response = exec_create(&mut ctx, CreateArgs { id: 42, data: document.deep_clone() }).unwrap();
    assert_eq!(
        response.attributes,
        vec![
            Attribute { key: "action".to_string(), value: "create".to_string() },
            Attribute { key: "id".to_string(), value: "42".to_string() },
        ]
    );
    let page = read(
        &ctx.store,
        ReadArgs {
            target: ReadTarget::Ids(vec![42]),
            desc: None,
            select: Some(vec!["*".to_string()]),
        },
    )
    .unwrap();
    assert_eq!(page.entities, vec![Entity { id: 42, data: Some(document) }]);
    assert_eq!(page.cursor, None);
    assert_eq!(ctx.store.get(42).unwrap().created_at, 1_000);
    assert_eq!(ctx.store.get(42).unwrap().updated_at, None);
}

#[test]
fn create_refuses_an_id_that_exists() {
    let mut ctx = collection(score_schema());
    scores(&mut ctx, &[(1, 10)]);
    let error = exec_create(
        &mut ctx,
        CreateArgs { id: 1, data: object(vec![("score", Document::Unsigned(11))]) },
    )
    .unwrap_err();
    assert_eq!(
        kind_and_reason(&error),
        (ErrorKind::NotAuthorized, "entity 1 already exists".to_string())
    );
    assert_eq!(ctx.store.size(), 1);
    assert_eq!(ctx.store.get(1).unwrap().data, object(vec![("score", Document::Unsigned(10))]));
}

#[test]
fn create_refuses_an_invalid_document_and_changes_nothing() {
    let mut ctx = collection(EntitySchema {
        name: "strict".to_string(),
        properties: vec![
            property("score", EntityPropertyParams::U8 {}, true, false),
            property("name", EntityPropertyParams::String { max_byte_size: Some(4) }, true, true),
        ],
    });
    let too_large = exec_create(
        &mut ctx,
        CreateArgs {
            id: 1,
            data: object(vec![
                ("score", Document::Unsigned(256)),
                ("name", Document::String("ab".to_string())),
            ]),
        },
    )
    .unwrap_err();
    assert_eq!(
        kind_and_reason(&too_large),
        (ErrorKind::ValidationError, "score - too large".to_string())
    );
    let missing = exec_create(
        &mut ctx,
        CreateArgs { id: 1, data: object(vec![("score", Document::Unsigned(2))]) },
    )
    .unwrap_err();
    assert_eq!(
        kind_and_reason(&missing),
        (ErrorKind::ValidationError, "name required".to_string())
    );
    let no_object = exec_create(&mut ctx, CreateArgs { id: 1, data: Document::Unsigned(3) })
        .unwrap_err();
    assert_eq!(
        kind_and_reason(&no_object),
        (ErrorKind::Unexpected, "updated entity is not an object".to_string())
    );
    assert_eq!(ctx.store.size(), 0);
    assert!(ctx.store.get(1).is_none());
    let empty = read(
        &ctx.store,
        ReadArgs {
            target: ReadTarget::Index {
                property: "score".to_string(),
                cursor: None,
                start: None,
                stop: None,
                limit: None,
            },
            desc: None,
            select: None,
        },
    )
    .unwrap();
    assert!(empty.entities.is_empty());
    assert_eq!(empty.cursor, None);
}

#[test]
fn index_pages_follow_the_cursor() {
    let mut ctx = collection(score_schema());
    scores(&mut ctx, &[(1, 10), (2, 30), (3, 20)]);
    let first = read(&ctx.store, by_index(None, None, None, Some(2), Some(false))).unwrap();
    assert_eq!(ids(&first.entities), vec![1, 3]);
    assert_eq!(first.cursor, Some(vec![0, 0, 0, 20, 0, 0, 0, 0, 0, 0, 0, 3]));
    let second = read(&ctx.store, by_index(first.cursor, None, None, None, None)).unwrap();
    assert_eq!(ids(&second.entities), vec![2]);
    assert_eq!(second.cursor, Some(vec![0, 0, 0, 30, 0, 0, 0, 0, 0, 0, 0, 2]));
    let third = read(&ctx.store, by_index(second.cursor, None, None, None, None)).unwrap();
    assert!(third.entities.is_empty());
    assert_eq!(third.cursor, None);
}

#[test]
fn pages_concatenate_to_the_whole_scan() {
    let mut ctx = collection(score_schema());
    let rows: Vec<(u64, u64)> = (0..23).map(|i| (100 - i, (i * 7) % 5)).collect();
    scores(&mut ctx, &rows);
    for desc in [false, true] {
        let whole = read(&ctx.store, by_index(None, None, None, Some(50), Some(desc))).unwrap();
        assert_eq!(whole.entities.len(), 23);
        let mut seen: Vec<u64> = Vec::new();
        let mut cursor: Option<Vec<u8>> = None;
        loop {
            let page = read(&ctx.store, by_index(cursor, None, None, Some(4), Some(desc))).unwrap();
            if page.entities.is_empty() {
                break;
            }
            assert!(page.entities.len() <= 4);
            seen.extend(ids(&page.entities));
            cursor = page.cursor;
        }
        assert_eq!(seen, ids(&whole.entities));
    }
}

#[test]
fn ascending_orders_by_value_then_id_and_descending_reverses() {
    let mut ctx = collection(score_schema());
    scores(&mut ctx, &[(5, 300), (9, 2), (1, 300), (7, 2), (3, 70000)]);
    let up = read(&ctx.store, by_index(None, None, None, None, None)).unwrap();
    assert_eq!(ids(&up.entities), vec![7, 9, 1, 5, 3]);
    let down = read(&ctx.store, by_index(None, None, None, None, Some(true))).unwrap();
    assert_eq!(ids(&down.entities), vec![3, 5, 1, 9, 7]);
}

#[test]
fn page_size_is_clamped() {
    let mut ctx = collection(score_schema());
    let rows: Vec<(u64, u64)> = (0..60).map(|i| (i, i)).collect();
    scores(&mut ctx, &rows);
    let large = read(&ctx.store, by_index(None, None, None, Some(200), None)).unwrap();
    assert_eq!(large.entities.len(), 50);
    let default = read(&ctx.store, by_index(None, None, None, None, None)).unwrap();
    assert_eq!(default.entities.len(), 10);
    let none = read(&ctx.store, by_index(None, None, None, Some(0), None)).unwrap();
    assert!(none.entities.is_empty());
    assert_eq!(none.cursor, None);
}

#[test]
fn bounds_are_by_value_and_cover_every_id_of_the_value() {
    let mut ctx = collection(score_schema());
    scores(&mut ctx, &[(1, 10), (2, 20), (3, 20), (4, 30), (u64::MAX, 20), (0, 20)]);
    let at = |n: u64| Document::Unsigned(n);
    let inclusive = read(
        &ctx.store,
        by_index(None, Some(IndexBound::Inclusive(at(20))), Some(IndexBound::Inclusive(at(20))), None, None),
    )
    .unwrap();
    assert_eq!(ids(&inclusive.entities), vec![0, 2, 3, u64::MAX]);
    let above = read(
        &ctx.store,
        by_index(None, Some(IndexBound::Exclusive(at(20))), None, None, None),
    )
    .unwrap();
    assert_eq!(ids(&above.entities), vec![4]);
    let below = read(
        &ctx.store,
        by_index(None, None, Some(IndexBound::Exclusive(at(20))), None, None),
    )
    .unwrap();
    assert_eq!(ids(&below.entities), vec![1]);
    let down = read(
        &ctx.store,
        by_index(
            None,
            Some(IndexBound::Inclusive(at(20))),
            Some(IndexBound::Exclusive(at(10))),
            None,
            Some(true),
        ),
    )
    .unwrap();
    assert_eq!(ids(&down.entities), vec![u64::MAX, 3, 2, 0]);
    let cursor_wins = read(
        &ctx.store,
        by_index(
            Some(vec![0, 0, 0, 20, 0, 0, 0, 0, 0, 0, 0, 2]),
            Some(IndexBound::Inclusive(at(30))),
            None,
            None,
            None,
        ),
    )
    .unwrap();
    assert_eq!(ids(&cursor_wins.entities), vec![3, u64::MAX, 4]);
}

#[test]
fn index_query_errors() {
    let mut ctx = collection(score_schema());
    scores(&mut ctx, &[(1, 10)]);
    let mut unknown = by_index(None, None, None, None, None);
    unknown.target = ReadTarget::Index {
        property: "level".to_string(),
        cursor: None,
        start: None,
        stop: None,
        limit: None,
    };
    assert_eq!(
        kind_and_reason(&read(&ctx.store, unknown).unwrap_err()),
        (ErrorKind::ValidationError, "level - not declared".to_string())
    );
    let short = by_index(Some(vec![1, 2, 3]), None, None, None, None);
    assert_eq!(
        kind_and_reason(&read(&ctx.store, short).unwrap_err()),
        (ErrorKind::ValidationError, "score - invalid cursor".to_string())
    );
    let bad = by_index(None, Some(IndexBound::Inclusive(Document::Bool(true))), None, None, None);
    assert_eq!(
        kind_and_reason(&read(&ctx.store, bad).unwrap_err()),
        (ErrorKind::ValidationError, "score - invalid type".to_string())
    );
    let bad_stop = by_index(None, None, Some(IndexBound::Exclusive(Document::Signed(-1))), None, None);
    assert_eq!(
        kind_and_reason(&read(&ctx.store, bad_stop).unwrap_err()),
        (ErrorKind::ValidationError, "score - too small".to_string())
    );
}

#[test]
fn read_by_ids_keeps_the_given_order_or_reverses_it() {
    let mut ctx = collection(score_schema());
    scores(&mut ctx, &[(1, 10), (2, 30), (3, 20)]);
    let given = read(
        &ctx.store,
        ReadArgs { target: ReadTarget::Ids(vec![3, 1, 2, 1]), desc: None, select: None },
    )
    .unwrap();
    assert_eq!(ids(&given.entities), vec![3, 1, 2, 1]);
    assert!(given.entities.iter().all(|e| e.data.is_none()));
    let reversed = query_read(
        QueryContext { store: &ctx.store },
        ReadArgs { target: ReadTarget::Ids(vec![3, 1, 2, 1]), desc: Some(true), select: None },
    )
    .unwrap();
    assert_eq!(ids(&reversed.entities), vec![1, 2, 1, 3]);
    let unknown_without_fields = read(
        &ctx.store,
        ReadArgs { target: ReadTarget::Ids(vec![3, 8, 9]), desc: None, select: None },
    )
    .unwrap_err();
    assert_eq!(
        kind_and_reason(&unknown_without_fields),
        (ErrorKind::NotFound, "entity 8 not found".to_string())
    );
    let unknown = read(
        &ctx.store,
        ReadArgs {
            target: ReadTarget::Ids(vec![1, 8, 9]),
            desc: Some(true),
            select: Some(vec![]),
        },
    )
    .unwrap_err();
    assert_eq!(kind_and_reason(&unknown), (ErrorKind::NotFound, "entity 9 not found".to_string()));
}

#[test]
fn projection_picks_the_named_members() {
    let mut ctx = collection(score_schema());
    exec_create(
        &mut ctx,
        CreateArgs {
            id: 1,
            data: object(vec![
                ("score", Document::Unsigned(5)),
                ("name", Document::String("x".to_string())),
                ("deep", object(vec![("name", Document::Null)])),
            ]),
        },
    )
    .unwrap();
    let select = |names: &[&str]| ReadArgs {
        target: ReadTarget::Ids(vec![1]),
        desc: None,
        select: Some(names.iter().map(|n| n.to_string()).collect()),
    };
    let picked = read(&ctx.store, select(&["name", "absent", "score", "name"])).unwrap();
    assert_eq!(
        picked.entities[0].data,
        Some(object(vec![
            ("name", Document::String("x".to_string())),
            ("score", Document::Unsigned(5)),
        ]))
    );
    let nothing = read(&ctx.store, select(&[])).unwrap();
    assert_eq!(nothing.entities[0].data, Some(object(vec![])));
    let all = read(&ctx.store, select(&["score", "*"])).unwrap();
    assert_eq!(
        all.entities[0].data,
        Some(object(vec![
            ("score", Document::Unsigned(5)),
            ("name", Document::String("x".to_string())),
            ("deep", object(vec![("name", Document::Null)])),
        ]))
    );
    let by_score = read(
        &ctx.store,
        ReadArgs {
            target: ReadTarget::Index {
                property: "score".to_string(),
                cursor: None,
                start: None,
                stop: None,
                limit: None,
            },
            desc: None,
            select: Some(vec!["score".to_string()]),
        },
    )
    .unwrap();
    assert_eq!(
        by_score.entities,
        vec![Entity { id: 1, data: Some(object(vec![("score", Document::Unsigned(5))])) }]
    );
}

#[test]
fn delete_by_another_caller_is_refused_and_changes_nothing() {
    let mut ctx = collection(score_schema());
    scores(&mut ctx, &[(1, 10)]);
    let mut stranger = ExecuteContext::new(ctx.store, 2_000, "stranger".to_string());
    let error = exec_delete(&mut stranger, DeleteArgs { id: 1 }).unwrap_err();
    assert_eq!(
        kind_and_reason(&error),
        (ErrorKind::NotAuthorized, "operator required".to_string())
    );
    let page = read(
        &stranger.store,
        ReadArgs {
            target: ReadTarget::Ids(vec![1]),
            desc: None,
            select: Some(vec!["*".to_string()]),
        },
    )
    .unwrap();
    assert_eq!(
        page.entities,
        vec![Entity { id: 1, data: Some(object(vec![("score", Document::Unsigned(10))])) }]
    );
    assert_eq!(stranger.store.size(), 1);
    let refused = exec_update(
        &mut stranger,
        UpdateArgs { id: 1, data: object(vec![]), mode: UpdateMode::Replace },
    )
    .unwrap_err();
    assert_eq!(refused.kind(), ErrorKind::NotAuthorized);
    assert_eq!(stranger.store.get(1).unwrap().updated_at, None);
}

#[test]
fn delete_takes_the_entity_and_its_rows_out() {
    let mut ctx = collection(score_schema());
    scores(&mut ctx, &[(1, 10), (2, 20)]);
    let response = exec_delete(&mut ctx, DeleteArgs { id: 1 }).unwrap();
    assert_eq!(
        response.attributes,
        vec![
            Attribute { key: "action".to_string(), value: "delete".to_string() },
            Attribute { key: "id".to_string(), value: "1".to_string() },
        ]
    );
    assert_eq!(ctx.store.size(), 1);
    assert!(ctx.store.get(1).is_none());
    let left = read(&ctx.store, by_index(None, None, None, None, None)).unwrap();
    assert_eq!(ids(&left.entities), vec![2]);
    let again = exec_delete(&mut ctx, DeleteArgs { id: 1 }).unwrap_err();
    assert_eq!(kind_and_reason(&again), (ErrorKind::NotFound, "entity 1 not found".to_string()));
}

fn ab_schema(b_required: bool) -> EntitySchema {
    EntitySchema {
        name: "ab".to_string(),
        properties: vec![
            property("a", EntityPropertyParams::U8 {}, true, false),
            property("b", EntityPropertyParams::U8 {}, true, b_required),
        ],
    }
}

fn ab_collection(b_required: bool) -> ExecuteContext {
    let mut ctx = collection(ab_schema(b_required));
    exec_create(
        &mut ctx,
        CreateArgs {
            id: 7,
            data: object(vec![("a", Document::Unsigned(0)), ("b", Document::Unsigned(5))]),
        },
    )
    .unwrap();
    ctx
}

fn index_ids(ctx: &ExecuteContext, name: &str) -> Vec<u64> {
    let page = read(
        &ctx.store,
        ReadArgs {
            target: ReadTarget::Index {
                property: name.to_string(),
                cursor: None,
                start: None,
                stop: None,
                limit: None,
            },
            desc: None,
            select: None,
        },
    )
    .unwrap();
    ids(&page.entities)
}

#[test]
fn merge_keeps_the_members_not_named() {
    let mut ctx = ab_collection(false);
    ctx.time = 3_000;
    let response = exec_update(
        &mut ctx,
        UpdateArgs {
            id: 7,
            data: object(vec![("a", Document::Unsigned(1))]),
            mode: UpdateMode::Merge,
        },
    )
    .unwrap();
    assert_eq!(
        response.attributes,
        vec![
            Attribute { key: "action".to_string(), value: "update".to_string() },
            Attribute { key: "id".to_string(), value: "7".to_string() },
        ]
    );
    let record = ctx.store.get(7).unwrap();
    assert_eq!(
        record.data,
        object(vec![("a", Document::Unsigned(1)), ("b", Document::Unsigned(5))])
    );
    assert_eq!(record.created_at, 1_000);
    assert_eq!(record.updated_at, Some(3_000));
    assert_eq!(index_ids(&ctx, "a"), vec![7]);
    assert_eq!(index_ids(&ctx, "b"), vec![7]);
    assert_eq!(ctx.store.size(), 1);
}

#[test]
fn replace_drops_the_members_not_named() {
    let mut ctx = ab_collection(false);
    exec_update(
        &mut ctx,
        UpdateArgs {
            id: 7,
            data: object(vec![("a", Document::Unsigned(1))]),
            mode: UpdateMode::Replace,
        },
    )
    .unwrap();
    assert_eq!(ctx.store.get(7).unwrap().data, object(vec![("a", Document::Unsigned(1))]));
    assert_eq!(index_ids(&ctx, "a"), vec![7]);
    assert_eq!(index_ids(&ctx, "b"), Vec::<u64>::new());
    let old_key = read(
        &ctx.store,
        ReadArgs {
            target: ReadTarget::Index {
                property: "a".to_string(),
                cursor: None,
                start: Some(IndexBound::Inclusive(Document::Unsigned(0))),
                stop: Some(IndexBound::Inclusive(Document::Unsigned(0))),
                limit: None,
            },
            desc: None,
            select: None,
        },
    )
    .unwrap();
    assert!(old_key.entities.is_empty());
}

#[test]
fn replace_fails_where_a_required_member_is_dropped() {
    let mut ctx = ab_collection(true);
    let error = exec_update(
        &mut ctx,
        UpdateArgs {
            id: 7,
            data: object(vec![("a", Document::Unsigned(1))]),
            mode: UpdateMode::Replace,
        },
    )
    .unwrap_err();
    assert_eq!(kind_and_reason(&error), (ErrorKind::ValidationError, "b required".to_string()));
    let record = ctx.store.get(7).unwrap();
    assert_eq!(
        record.data,
        object(vec![("a", Document::Unsigned(0)), ("b", Document::Unsigned(5))])
    );
    assert_eq!(record.updated_at, None);
    let merged = exec_update(
        &mut ctx,
        UpdateArgs {
            id: 7,
            data: object(vec![("a", Document::Unsigned(1))]),
            mode: UpdateMode::Merge,
        },
    );
    assert!(merged.is_ok());
}

#[test]
fn update_of_an_unknown_id_is_not_found() {
    let mut ctx = ab_collection(false);
    let error = exec_update(
        &mut ctx,
        UpdateArgs { id: 8, data: object(vec![]), mode: UpdateMode::Merge },
    )
    .unwrap_err();
    assert_eq!(kind_and_reason(&error), (ErrorKind::NotFound, "entity 8 not found".to_string()));
    let not_an_object = exec_update(
        &mut ctx,
        UpdateArgs { id: 7, data: Document::Null, mode: UpdateMode::Merge },
    )
    .unwrap_err();
    assert_eq!(
        kind_and_reason(&not_an_object),
        (ErrorKind::Unexpected, "updated entity is not an object".to_string())
    );
}

#[test]
fn execute_routes_each_message() {
    let mut ctx = collection(score_schema());
    execute(
        &mut ctx,
        ExecuteMsg::Create(CreateArgs { id: 1, data: object(vec![("score", Document::Unsigned(1))]) }),
    )
    .unwrap();
    execute(
        &mut ctx,
        ExecuteMsg::Update(UpdateArgs {
            id: 1,
            data: object(vec![("score", Document::Unsigned(2))]),
            mode: UpdateMode::Merge,
        }),
    )
    .unwrap();
    assert_eq!(ctx.store.get(1).unwrap().data, object(vec![("score", Document::Unsigned(2))]));
    execute(&mut ctx, ExecuteMsg::Delete(DeleteArgs { id: 1 })).unwrap();
    assert_eq!(ctx.store.size(), 0);
}

#[test]
fn operator_and_metadata_change_only_for_the_operator() {
    let mut ctx = collection(score_schema());
    let metadata = || CollectionMetadata {
        name: Some("scores".to_string()),
        description: Some("d".to_string()),
        website: None,
    };
    exec_set_metadata(&mut ctx, metadata()).unwrap();
    assert_eq!(ctx.store.metadata().name, Some("scores".to_string()));
    assert_eq!(ctx.store.metadata().description, Some("d".to_string()));
    let refused = exec_set_operator(&mut ctx, None).unwrap_err();
    assert_eq!(
        kind_and_reason(&refused),
        (ErrorKind::ValidationError, "invalid new operator address".to_string())
    );
    assert_eq!(ctx.store.operator(), Some(&"operator".to_string()));
    let response = exec_set_operator(&mut ctx, Some("next".to_string())).unwrap();
    assert_eq!(
        response.attributes,
        vec![Attribute { key: "action".to_string(), value: "set_operator".to_string() }]
    );
    assert_eq!(ctx.store.operator(), Some(&"next".to_string()));
    assert_eq!(exec_set_metadata(&mut ctx, metadata()).unwrap_err().kind(), ErrorKind::NotAuthorized);
    assert_eq!(
        exec_set_operator(&mut ctx, Some("me".to_string())).unwrap_err().kind(),
        ErrorKind::NotAuthorized
    );
    let info = query_info(QueryContext { store: &ctx.store }).unwrap();
    assert_eq!(info.operator, "next".to_string());
    assert_eq!(info.size, 0);
    assert_eq!(info.schema.name, "players".to_string());
    assert_eq!(info.metadata.name, Some("scores".to_string()));
    assert_eq!(ctx.load_schema().unwrap().properties.len(), 1);
    let blank = Store::new();
    assert_eq!(
        kind_and_reason(&query_info(QueryContext { store: &blank }).unwrap_err()),
        (ErrorKind::NotFound, "operator not set".to_string())
    );
}

#[test]
fn count_and_indices_follow_every_step() {
    let mut ctx = ab_collection(false);
    let expect = |ctx: &ExecuteContext, size: u32, a: Vec<u64>, b: Vec<u64>| {
        assert_eq!(ctx.store.size(), size);
        assert_eq!(index_ids(ctx, "a"), a);
        assert_eq!(index_ids(ctx, "b"), b);
    };
    expect(&ctx, 1, vec![7], vec![7]);
    exec_create(&mut ctx, CreateArgs { id: 3, data: object(vec![("b", Document::Unsigned(9))]) })
        .unwrap();
    expect(&ctx, 2, vec![7], vec![7, 3]);
    exec_create(&mut ctx, CreateArgs { id: 5, data: object(vec![("x", Document::Null)]) }).unwrap();
    expect(&ctx, 3, vec![7], vec![7, 3]);
    exec_update(
        &mut ctx,
        UpdateArgs {
            id: 5,
            data: object(vec![("a", Document::Unsigned(0)), ("b", Document::Unsigned(1))]),
            mode: UpdateMode::Merge,
        },
    )
    .unwrap();
    expect(&ctx, 3, vec![5, 7], vec![5, 7, 3]);
    exec_update(
        &mut ctx,
        UpdateArgs { id: 7, data: object(vec![("a", Document::Unsigned(200))]), mode: UpdateMode::Replace },
    )
    .unwrap();
    expect(&ctx, 3, vec![5, 7], vec![5, 3]);
    let refused = exec_update(
        &mut ctx,
        UpdateArgs { id: 7, data: object(vec![("b", Document::Unsigned(300))]), mode: UpdateMode::Merge },
    );
    assert!(refused.is_err());
    expect(&ctx, 3, vec![5, 7], vec![5, 3]);
    exec_delete(&mut ctx, DeleteArgs { id: 5 }).unwrap();
    expect(&ctx, 2, vec![7], vec![3]);
    exec_delete(&mut ctx, DeleteArgs { id: 3 }).unwrap();
    exec_delete(&mut ctx, DeleteArgs { id: 7 }).unwrap();
    expect(&ctx, 0, vec![], vec![]);
}

#[test]
fn signed_values_scan_from_negative_to_positive() {
    let mut ctx = collection(EntitySchema {
        name: "t".to_string(),
        properties: vec![property("t", EntityPropertyParams::I16 {}, true, true)],
    });
    for (id, t) in [(1u64, 5i64), (2, -300), (3, 0), (4, -1), (5, 300)] {
        exec_create(&mut ctx, CreateArgs { id, data: object(vec![("t", Document::Signed(t))]) })
            .unwrap();
    }
    let scan = |start: Option<i64>, stop: Option<i64>, desc: bool| {
        let page = read(
            &ctx.store,
            ReadArgs {
                target: ReadTarget::Index {
                    property: "t".to_string(),
                    cursor: None,
                    start: start.map(|v| IndexBound::Inclusive(Document::Signed(v))),
                    stop: stop.map(|v| IndexBound::Exclusive(Document::Signed(v))),
                    limit: None,
                },
                desc: Some(desc),
                select: None,
            },
        )
        .unwrap();
        ids(&page.entities)
    };
    assert_eq!(scan(None, None, false), vec![2, 4, 3, 1, 5]);
    assert_eq!(scan(Some(-1), Some(300), false), vec![4, 3, 1]);
    assert_eq!(scan(Some(5), Some(-300), true), vec![1, 3, 4]);
}
