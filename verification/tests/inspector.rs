use nami_core::inspector::{
    default_refresh_seconds, InspectorRegistry, InspectorSpec, PanelPosition, PanelSource, PanelView, RefreshStrategy,
};


fn sample_http() -> InspectorSpec {
    InspectorSpec {
        name: "storage".into(),
        title: "Storage Inspector".into(),
        icon: Some("database".into()),
        source: PanelSource::Http { url: "/storage".into() },
        view: PanelView::Table,
        refresh: RefreshStrategy::Manual,
        refresh_seconds: 5,
        columns: vec!["name".into(), "entry_count".into()],
        position: PanelPosition::Bottom,
        visible: true,
        min_height: 0,
        description: None,
    }
}

#[test]
fn validate_requires_name_and_title() {
    let mut s = sample_http();
    s.name = String::new();
    assert!(s.validate().is_err());
    let mut s = sample_http();
    s.title = String::new();
    assert!(s.validate().is_err());
}

#[test]
fn validate_rejects_source_missing_key_field() {
    let specs = [
        InspectorSpec {
            source: PanelSource::Http { url: String::new() },
            ..sample_http()
        },
        InspectorSpec {
            source: PanelSource::Mcp {
                tool: String::new(),
                args: None,
            },
            ..sample_http()
        },
        InspectorSpec {
            source: PanelSource::Storage { name: String::new() },
            ..sample_http()
        },
        InspectorSpec {
            source: PanelSource::State { name: String::new() },
            ..sample_http()
        },
        InspectorSpec {
            source: PanelSource::Query { name: String::new() },
            ..sample_http()
        },
    ];
    for s in specs {
        assert!(
            s.validate().is_err(),
            "expected validation error for {s:?}"
        );
    }
}

#[test]
fn clamped_refresh_respects_bounds() {
    let low = InspectorSpec {
        refresh_seconds: 0,
        ..sample_http()
    };
    assert_eq!(low.clamped_refresh(), 1);
    let high = InspectorSpec {
        refresh_seconds: 99_999,
        ..sample_http()
    };
    assert_eq!(high.clamped_refresh(), 3600);
}

#[test]
fn mod_registry_insert_validates_and_dedupes() {
    let mut reg = InspectorRegistry::new();
    assert!(reg
        .insert(InspectorSpec {
            title: String::new(),
            ..sample_http()
        })
        .is_err());
    reg.insert(sample_http()).unwrap();
    reg.insert(InspectorSpec {
        view: PanelView::Tree,
        ..sample_http()
    })
    .unwrap();
    assert_eq!(reg.len(), 1);
    assert_eq!(reg.specs()[0].view, PanelView::Tree);
}

#[test]
fn visible_filters_hidden_panels() {
    let mut reg = InspectorRegistry::new();
    reg.insert(sample_http()).unwrap();
    reg.insert(InspectorSpec {
        name: "hidden".into(),
        visible: false,
        ..sample_http()
    })
    .unwrap();
    let vis = reg.visible();
    assert_eq!(vis.len(), 1);
    assert_eq!(vis[0].name, "storage");
}

#[test]
fn view_default_is_json() {
    assert_eq!(PanelView::default(), PanelView::Json);
}

#[test]
fn position_default_is_bottom() {
    assert_eq!(PanelPosition::default(), PanelPosition::Bottom);
}


#[test]
fn validate_accepts_static_source_with_no_fields() {
    let mut obj = serde_json::Map::new();
    obj.insert("note".to_owned(), serde_json::Value::String("demo".to_owned()));
    let s = InspectorSpec {
        source: PanelSource::Static { value: serde_json::Value::Object(obj) },
        ..sample_http()
    };
    assert!(s.validate().is_ok());
}

#[test]
fn validate_messages() {
    let s = InspectorSpec { title: "  ".into(), ..sample_http() };
    assert_eq!(s.validate(), Err("inspector panel 'storage' has empty :title".to_owned()));
    let s = InspectorSpec { source: PanelSource::Mcp { tool: String::new(), args: None }, ..sample_http() };
    assert_eq!(s.validate(), Err("inspector 'storage' :mcp source needs :tool".to_owned()));
    let s = InspectorSpec { name: " ".into(), ..sample_http() };
    assert_eq!(s.validate(), Err("inspector panel name is empty".to_owned()));
    assert_eq!(default_refresh_seconds(), 5);
    assert_eq!(RefreshStrategy::default(), RefreshStrategy::Manual);
}

#[test]
fn extend_drops_invalid_and_get_finds() {
    let mut reg = InspectorRegistry::new();
    reg.extend(vec![
        sample_http(),
        InspectorSpec { name: "q".into(), source: PanelSource::Query { name: String::new() }, ..sample_http() },
    ]);
    assert_eq!(reg.len(), 1);
    assert!(reg.get("q").is_none());
    assert_eq!(reg.get("storage").unwrap().position, PanelPosition::Bottom);
    assert!(!reg.is_empty());
}
