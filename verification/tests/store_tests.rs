use coddog::platform::Platform;
use coddog::reloc::CoddogError;
use coddog::store::{
    CreateProjectRequest, DBSymbol, MatchChannel, QuerySymbolsByNameRequest, QueryWindowsRequest,
    SortDirection, Store, SubmatchResult, SubmatchResultOrder, SymbolMetadata,
    UpdateProjectRequest,
};
use coddog::get_hashes;

fn symbol_row(name: &str, slug: &str, hashes: (i64, i64, i64), len: i32) -> DBSymbol {
    DBSymbol {
        id: 0,
        slug: slug.to_string(),
        len,
        name: name.to_string(),
        is_decompiled: false,
        symbol_idx: 0,
        opcode_hash: hashes.0,
        equiv_hash: hashes.1,
        exact_hash: hashes.2,
        source_id: 1,
        source_name: "src".to_string(),
        object_path: "bin/obj.bin".to_string(),
        object_symbol_idx: 0,
        object_id: 1,
        version_id: Some(1),
        version_name: Some("us".to_string()),
        project_id: 1,
        project_name: "proj".to_string(),
        project_repo: None,
        platform: Platform::N64.platform_id(),
    }
}

#[test]
fn duplicate_project_names_are_rejected() {
    let mut store = Store::new();
    let id = store
        .create_project(CreateProjectRequest { name: "paper".to_string(), repo: None })
        .unwrap();
    assert_eq!(id, 1);
    let err = store.create_project(CreateProjectRequest { name: "paper".to_string(), repo: None });
    assert_eq!(err, Err(CoddogError::DuplicateName));
    let other = store
        .create_project(CreateProjectRequest { name: "sticker".to_string(), repo: None })
        .unwrap();
    assert!(other > id);
    assert_eq!(store.count_projects(), 2);
}

#[test]
fn identical_object_bytes_share_one_row() {
    let mut store = Store::new();
    let a = store.create_object_from_bytes(&[1, 2, 3], "bin/a.bin".to_string());
    let b = store.create_object_from_bytes(&[1, 2, 3], "bin/b.bin".to_string());
    let c = store.create_object_from_bytes(&[1, 2, 4], "bin/c.bin".to_string());
    assert_eq!(a, b);
    assert_ne!(a, c);
}

#[test]
fn slug_lookup_reports_not_found_distinctly() {
    let mut store = Store::new();
    store.add_symbol(symbol_row("foo", "slug-foo", (1, 2, 3), 16), Vec::new());
    let found = store.query_symbol_by_slug(&"slug-foo".to_string()).unwrap();
    assert_eq!(found.name, "foo");
    let missing = store.query_symbol_by_slug(&"slug-bar".to_string());
    assert_eq!(missing.unwrap_err(), CoddogError::NotFound);
}

#[test]
fn match_channels_exclude_the_query_symbol() {
    let mut store = Store::new();
    let a = store.add_symbol(symbol_row("a", "s-a", (10, 20, 30), 16), Vec::new());
    let _b = store.add_symbol(symbol_row("b", "s-b", (10, 20, 31), 16), Vec::new());
    let _c = store.add_symbol(symbol_row("c", "s-c", (10, 21, 32), 16), Vec::new());
    let _d = store.add_symbol(symbol_row("d", "s-d", (11, 22, 33), 16), Vec::new());

    let opcode = store.query_by_opcode_hash(10, a);
    assert_eq!(opcode.len(), 2);
    assert_eq!(opcode[0].name, "b");
    assert_eq!(opcode[1].name, "c");

    let equiv = store.query_by_equiv_hash(20, a);
    assert_eq!(equiv.len(), 1);
    assert_eq!(equiv[0].name, "b");

    let exact = store.query_by_exact_hash(30, a);
    assert_eq!(exact.len(), 0);

    let via_channel = store.query_by_channel(MatchChannel::Opcode, 10, a);
    assert_eq!(via_channel.len(), 2);
}

#[test]
fn name_lookup_is_case_insensitive_substring() {
    let mut store = Store::new();
    store.add_symbol(symbol_row("osSetIntMask", "s-1", (1, 1, 1), 16), Vec::new());
    store.add_symbol(symbol_row("guMtxIdent", "s-2", (2, 2, 2), 16), Vec::new());
    let rows = store.query_symbols_by_name(&QuerySymbolsByNameRequest {
        name: "setint".to_string(),
    });
    assert_eq!(rows.len(), 1);
    assert_eq!(rows[0].name, "osSetIntMask");
    let none = store.query_symbols_by_name(&QuerySymbolsByNameRequest {
        name: "collision".to_string(),
    });
    assert_eq!(none.len(), 0);
}

#[test]
fn metadata_reports_length_in_instructions() {
    let row = symbol_row("foo", "s-foo", (1, 2, 3), 64);
    assert_eq!(row.get_num_insns(), 16);
    let meta = SymbolMetadata::from_db_symbol(&row);
    assert_eq!(meta.len, 16);
    assert_eq!(meta.slug, "s-foo");
    assert_eq!(meta.project_name, "proj");
}

#[test]
fn submatch_query_reports_maximal_runs() {
    // two forty-opcode symbols sharing opcodes five through twenty-four,
    // indexed at the database window width of eight
    let mut a: Vec<u16> = Vec::new();
    let mut b: Vec<u16> = Vec::new();
    for k in 0..40u16 {
        if (5..25).contains(&k) {
            a.push(1000 + k);
            b.push(1000 + k);
        } else {
            a.push(100 + k);
            b.push(200 + k);
        }
    }
    let mut store = Store::new();
    let qa = store.add_symbol(symbol_row("q", "s-q", (1, 1, 1), 160), get_hashes(&a, 8));
    let _sb = store.add_symbol(symbol_row("s", "s-s", (2, 2, 2), 160), get_hashes(&b, 8));

    let res = store
        .query_windows_by_symbol_id(&QueryWindowsRequest {
            symbol_id: qa,
            start: 0,
            end: 39,
            window_size: 8,
            db_window_size: 8,
            limit: 10,
            page: 0,
            sort_by: SubmatchResultOrder::Length,
            sort_direction: SortDirection::Descending,
        })
        .unwrap();
    assert_eq!(res.total_count, 1);
    assert_eq!(res.windows.len(), 1);
    let row = &res.windows[0];
    assert_eq!(row.query_start, 5);
    assert_eq!(row.match_start, 5);
    // thirteen database windows span twenty instructions
    assert_eq!(row.len, 20);
    assert_eq!(row.symbol_name, "s");

    let folded = SubmatchResult::from_db_window(row);
    assert_eq!(folded.query_start, 5);
    assert_eq!(folded.len, 20);
    assert_eq!(folded.symbol.len, 40);
}

#[test]
fn submatch_query_orders_and_pages() {
    // one long shared stretch with one symbol, one short with another
    let base: Vec<u16> = (0..40u16).map(|k| 3000 + k).collect();
    let mut long_partner: Vec<u16> = (0..40u16).map(|k| 4000 + k).collect();
    let mut short_partner: Vec<u16> = (0..40u16).map(|k| 5000 + k).collect();
    for k in 0..20usize {
        long_partner[k] = base[k];
    }
    for k in 0..10usize {
        short_partner[k + 20] = base[k + 20];
    }
    let mut store = Store::new();
    let q = store.add_symbol(symbol_row("q", "p-q", (1, 1, 1), 160), get_hashes(&base, 8));
    store.add_symbol(symbol_row("long", "p-l", (2, 2, 2), 160), get_hashes(&long_partner, 8));
    store.add_symbol(symbol_row("short", "p-s", (3, 3, 3), 160), get_hashes(&short_partner, 8));

    let request = |limit: i64, page: i64| QueryWindowsRequest {
        symbol_id: q,
        start: 0,
        end: 39,
        window_size: 8,
        db_window_size: 8,
        limit,
        page,
        sort_by: SubmatchResultOrder::Length,
        sort_direction: SortDirection::Descending,
    };
    let res = store.query_windows_by_symbol_id(&request(10, 0)).unwrap();
    assert_eq!(res.total_count, 2);
    assert_eq!(res.windows.len(), 2);
    // longest run first
    assert_eq!(res.windows[0].symbol_name, "long");
    assert_eq!(res.windows[0].len, 20);
    assert_eq!(res.windows[1].symbol_name, "short");
    assert_eq!(res.windows[1].len, 10);
    // paging slices the same ordering
    let page0 = store.query_windows_by_symbol_id(&request(1, 0)).unwrap();
    assert_eq!(page0.total_count, 2);
    assert_eq!(page0.windows.len(), 1);
    assert_eq!(page0.windows[0].symbol_name, "long");
    let page1 = store.query_windows_by_symbol_id(&request(1, 1)).unwrap();
    assert_eq!(page1.windows.len(), 1);
    assert_eq!(page1.windows[0].symbol_name, "short");
    let page2 = store.query_windows_by_symbol_id(&request(1, 2)).unwrap();
    assert_eq!(page2.windows.len(), 0);
}

#[test]
fn submatch_query_rejects_narrow_windows_and_unknown_symbols() {
    let mut store = Store::new();
    let q = store.add_symbol(symbol_row("q", "r-q", (1, 1, 1), 160), get_hashes(&vec![1, 2, 3], 2));
    let bad = store.query_windows_by_symbol_id(&QueryWindowsRequest {
        symbol_id: q,
        start: 0,
        end: 39,
        window_size: 1,
        db_window_size: 2,
        limit: 10,
        page: 0,
        sort_by: SubmatchResultOrder::Length,
        sort_direction: SortDirection::Descending,
    });
    assert_eq!(bad.unwrap_err(), CoddogError::WindowTooSmall);
    let missing = store.query_windows_by_symbol_id(&QueryWindowsRequest {
        symbol_id: 999,
        start: 0,
        end: 39,
        window_size: 2,
        db_window_size: 2,
        limit: 10,
        page: 0,
        sort_by: SubmatchResultOrder::Length,
        sort_direction: SortDirection::Descending,
    });
    assert_eq!(missing.unwrap_err(), CoddogError::NotFound);
}

#[test]
fn versions_and_sources_get_fresh_ids() {
    let mut store = Store::new();
    let p = store
        .create_project(CreateProjectRequest { name: "p".to_string(), repo: None })
        .unwrap();
    let v = store.create_version("us".to_string(), Platform::N64.platform_id(), p);
    let o = store.create_object_from_bytes(&[9, 9], "bin/o.bin".to_string());
    let s = store.create_source("main".to_string(), None, o, Some(v), p);
    assert!(p < v && v < o && o < s);
    assert_eq!(store.count_versions(), 1);
    assert_eq!(store.count_sources(), 1);
    assert_eq!(store.count_symbols(), 0);
}

#[test]
fn projects_can_be_looked_up_and_updated() {
    let mut store = Store::new();
    let p = store
        .create_project(CreateProjectRequest { name: "paper".to_string(), repo: None })
        .unwrap();
    assert_eq!(store.query_project_by_id(p).unwrap().name, "paper");
    assert_eq!(store.query_project_by_name(&"paper".to_string()).unwrap().id, p);
    assert_eq!(
        store.query_project_by_id(99).unwrap_err(),
        coddog::reloc::CoddogError::NotFound
    );
    store
        .update_project(
            p,
            UpdateProjectRequest { name: "papermario".to_string(), repo: Some("url".to_string()) },
        )
        .unwrap();
    let row = store.query_project_by_id(p).unwrap();
    assert_eq!(row.name, "papermario");
    assert_eq!(row.repo, Some("url".to_string()));
    assert_eq!(store.query_all_projects().len(), 1);
    assert!(store.update_project(99, UpdateProjectRequest { name: "x".to_string(), repo: None })
        .is_err());
}

#[test]
fn deleting_a_project_cascades_to_what_it_owns() {
    let mut store = Store::new();
    let p1 = store
        .create_project(CreateProjectRequest { name: "one".to_string(), repo: None })
        .unwrap();
    let p2 = store
        .create_project(CreateProjectRequest { name: "two".to_string(), repo: None })
        .unwrap();
    let v1 = store.create_version("us".to_string(), Platform::N64.platform_id(), p1);
    let _v2 = store.create_version("us".to_string(), Platform::N64.platform_id(), p2);
    let o = store.create_object_from_bytes(&[1], "bin/one.bin".to_string());
    store.create_source("main".to_string(), None, o, Some(v1), p1);
    let mut row1 = symbol_row("own", "c-1", (1, 1, 1), 16);
    row1.project_id = p1;
    let mut row2 = symbol_row("keep", "c-2", (2, 2, 2), 16);
    row2.project_id = p2;
    let s1 = store.add_symbol(row1, vec![11, 22]);
    let _s2 = store.add_symbol(row2, vec![33, 44]);

    store.delete_project(p1);
    assert_eq!(store.count_projects(), 1);
    assert_eq!(store.count_versions(), 1);
    assert_eq!(store.count_sources(), 0);
    assert_eq!(store.count_symbols(), 1);
    // the kept project and its rows survive; objects are shared and stay
    assert!(store.query_project_by_id(p2).is_ok());
    assert!(store.query_symbol_by_slug(&"c-2".to_string()).is_ok());
    assert!(store.query_symbol_by_slug(&"c-1".to_string()).is_err());
    // the deleted symbol's windows are gone too
    let gone = store.query_windows_by_symbol_id(&QueryWindowsRequest {
        symbol_id: s1,
        start: 0,
        end: 10,
        window_size: 1,
        db_window_size: 1,
        limit: 10,
        page: 0,
        sort_by: SubmatchResultOrder::Length,
        sort_direction: SortDirection::Descending,
    });
    assert_eq!(gone.unwrap_err(), coddog::reloc::CoddogError::NotFound);
}
