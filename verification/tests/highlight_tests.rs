use std::cell::{Cell, RefCell};

use reading_cli::highlight::analyzer::{align_words_to_offsets, AnalyzerKind, TextAnalyzer};
use reading_cli::highlight::annotation::{Annotation, AnnotationKind};
use reading_cli::highlight::jieba_analyzer::{map_jieba_tag, JiebaAnalyzer};
use reading_cli::highlight::ltp_legacy_analyzer::{
    map_ltp_pos_tag, ner_annotations_from_offsets, parse_ner_tag, pos_annotations_from_offsets,
    LtpLegacyModelPaths, NerPosition,
};
use reading_cli::highlight::render::{render_highlighted_page, HighlightedPage};
use reading_cli::highlight::store::{
    annotation_path_for_book, hex16, manifest_is_fresh, plan_chunks, AnnotationCache, AnnotationManifest,
};
use reading_cli::text_source::TextSource;

#[test]
fn maps_jieba_tags_to_highlight_kinds() {
    assert_eq!(map_jieba_tag("n"), Some(AnnotationKind::Noun));
    assert_eq!(map_jieba_tag("nr"), Some(AnnotationKind::Noun));
    assert_eq!(map_jieba_tag("v"), Some(AnnotationKind::Verb));
    assert_eq!(map_jieba_tag("r"), Some(AnnotationKind::Pronoun));
    assert_eq!(map_jieba_tag("d"), Some(AnnotationKind::Adverb));
    assert_eq!(map_jieba_tag("a"), Some(AnnotationKind::Adjective));
    assert_eq!(map_jieba_tag("ul"), None);
}

#[test]
fn maps_ltp_pos_tags_to_highlight_kinds() {
    assert_eq!(map_ltp_pos_tag("n"), Some(AnnotationKind::Noun));
    assert_eq!(map_ltp_pos_tag("nh"), Some(AnnotationKind::Noun));
    assert_eq!(map_ltp_pos_tag("v"), Some(AnnotationKind::Verb));
    assert_eq!(map_ltp_pos_tag("r"), Some(AnnotationKind::Pronoun));
    assert_eq!(map_ltp_pos_tag("d"), Some(AnnotationKind::Adverb));
    assert_eq!(map_ltp_pos_tag("a"), Some(AnnotationKind::Adjective));
    assert_eq!(map_ltp_pos_tag("wp"), None);
}

#[test]
fn ner_annotations_map_single_token_entities() {
    let offsets = vec![(0, 6), (6, 12)];
    let annotations = ner_annotations_from_offsets(&offsets, &["S-Nh", "O"]);

    assert_eq!(annotations.len(), 1);
    assert_eq!(annotations[0].start_offset, 0);
    assert_eq!(annotations[0].end_offset, 6);
    assert_eq!(annotations[0].kind, AnnotationKind::Person);
}

#[test]
fn ner_annotations_merge_begin_inside_end_entities() {
    let offsets = vec![(0, 3), (3, 6), (6, 9), (9, 12)];
    let annotations = ner_annotations_from_offsets(&offsets, &["B-Ns", "I-Ns", "E-Ns", "O"]);

    assert_eq!(annotations.len(), 1);
    assert_eq!(annotations[0].start_offset, 0);
    assert_eq!(annotations[0].end_offset, 9);
    assert_eq!(annotations[0].kind, AnnotationKind::Location);
}

#[test]
fn ner_annotations_drop_entities_that_never_end() {
    let offsets = vec![(0, 3), (3, 6), (6, 9)];
    let annotations = ner_annotations_from_offsets(&offsets, &["B-Ni", "I-Ni", "O"]);
    assert!(annotations.is_empty());

    let annotations = ner_annotations_from_offsets(&offsets, &["B-Ni", "E-Ni", "S-Ns"]);
    assert_eq!(
        annotations,
        [
            Annotation { start_offset: 0, end_offset: 6, kind: AnnotationKind::Organization },
            Annotation { start_offset: 6, end_offset: 9, kind: AnnotationKind::Location },
        ]
    );
}

#[test]
fn ner_tags_are_split_into_position_and_entity() {
    assert_eq!(parse_ner_tag("B-Nh"), Some((NerPosition::Begin, AnnotationKind::Person)));
    assert_eq!(parse_ner_tag("E-Ni"), Some((NerPosition::End, AnnotationKind::Organization)));
    assert_eq!(parse_ner_tag("O"), None);
    assert_eq!(parse_ner_tag("X-Nh"), None);
    assert_eq!(parse_ner_tag("S-Nx"), None);
}

#[test]
fn pos_annotations_keep_only_highlighted_tags() {
    let offsets = vec![(0, 3), (3, 9), (9, 12)];
    let annotations = pos_annotations_from_offsets(&offsets, &["r", "wp", "n"]);
    assert_eq!(
        annotations,
        [
            Annotation { start_offset: 0, end_offset: 3, kind: AnnotationKind::Pronoun },
            Annotation { start_offset: 9, end_offset: 12, kind: AnnotationKind::Noun },
        ]
    );
}

#[test]
fn ltp_legacy_model_paths_are_derived_from_model_dir() {
    let paths = LtpLegacyModelPaths::from_dir(".reading/models/ltp/legacy");

    assert!(paths.cws.ends_with("cws_model.bin"));
    assert!(paths.pos.ends_with("pos_model.bin"));
    assert!(paths.ner.ends_with("ner_model.bin"));
    assert_eq!(paths.cws, ".reading/models/ltp/legacy/cws_model.bin");
}

#[test]
fn analyzer_kind_exposes_ltp_legacy_id() {
    assert_eq!(AnalyzerKind::LtpLegacyPos.analyzer_id(), "ltp-pos");
    assert_eq!(AnalyzerKind::LtpLegacyNer.analyzer_id(), "ltp-ner");
}

#[test]
fn analyzer_kind_cycles_between_available_analyzers() {
    assert_eq!(AnalyzerKind::Jieba.next(), AnalyzerKind::LtpLegacyPos);
    assert_eq!(AnalyzerKind::LtpLegacyPos.next(), AnalyzerKind::LtpLegacyNer);
    assert_eq!(AnalyzerKind::LtpLegacyNer.next(), AnalyzerKind::Jieba);
}

#[test]
fn analyzer_kind_returns_after_three_steps() {
    for kind in [AnalyzerKind::Jieba, AnalyzerKind::LtpLegacyPos, AnalyzerKind::LtpLegacyNer] {
        assert_ne!(kind.next(), kind);
        assert_eq!(kind.next().next().next(), kind);
    }
    assert_eq!(AnalyzerKind::Jieba.analyzer_id(), "jieba");
}

#[test]
fn analyzer_returns_valid_utf8_byte_offsets() {
    let analyzer = JiebaAnalyzer::new();
    let text = "\u{4ed6}\u{6162}\u{6162}\u{5730}\u{6253}\u{5f00}\u{95e8}";
    let annotations = analyzer.analyze(text, 100).unwrap();

    assert!(!annotations.is_empty());

    for annotation in annotations {
        assert!(annotation.start_offset >= 100);
        assert!(annotation.end_offset <= 100 + text.len() as u64);
        assert!(annotation.start_offset < annotation.end_offset);

        let local_start = (annotation.start_offset - 100) as usize;
        let local_end = (annotation.end_offset - 100) as usize;
        assert!(text.is_char_boundary(local_start));
        assert!(text.is_char_boundary(local_end));
    }
}

#[test]
fn jieba_analyzer_marks_pronouns_and_nouns() {
    let analyzer = JiebaAnalyzer::new();
    let annotations = analyzer.analyze("我们", 7).unwrap();
    assert_eq!(annotations, [Annotation { start_offset: 7, end_offset: 13, kind: AnnotationKind::Pronoun }]);
    assert_eq!(analyzer.analyzer_id(), "jieba");
    assert!(analyzer.analyze("我们", u64::MAX - 3).is_err());
}

#[test]
fn annotation_path_is_stable_for_same_book_path() {
    let left = annotation_path_for_book("E:/books/novel.txt", "jieba");
    let right = annotation_path_for_book("E:/books/novel.txt", "jieba");

    assert_eq!(left, right);
}

#[test]
fn annotation_path_is_separated_by_analyzer_id() {
    let book_path = "E:/books/novel.txt";
    let jieba_path = annotation_path_for_book(book_path, "jieba");
    let ltp_path = annotation_path_for_book(book_path, "ltp-legacy");

    assert_ne!(jieba_path, ltp_path);
    assert!(jieba_path.ends_with("jieba"));
    assert!(ltp_path.ends_with("ltp-legacy"));
}

#[test]
fn annotation_path_has_a_hex_hash_directory() {
    let path = annotation_path_for_book("novel.txt", "jieba");
    let parts: Vec<&str> = path.split('/').collect();
    assert_eq!(parts.len(), 4);
    assert_eq!(parts[0], ".reading");
    assert_eq!(parts[1], "annotations");
    assert_eq!(parts[2].len(), 16);
    assert!(parts[2].chars().all(|c| c.is_ascii_hexdigit() && !c.is_ascii_uppercase()));
    assert_ne!(path, annotation_path_for_book("other.txt", "jieba"));
}

#[test]
fn hex16_writes_sixteen_lower_case_digits() {
    assert_eq!(hex16(0), "0000000000000000");
    assert_eq!(hex16(0xdead_beef), "00000000deadbeef");
    assert_eq!(hex16(u64::MAX), "ffffffffffffffff");
}

#[test]
fn align_words_to_offsets_tracks_utf8_byte_offsets() {
    let text = "他看见海";
    let offsets = align_words_to_offsets(text, &["他", "看见", "海"], 100).unwrap();

    assert_eq!(offsets, vec![(100, 103), (103, 109), (109, 112)]);
}

#[test]
fn align_words_to_offsets_handles_repeated_words_with_cursor() {
    let text = "他看见他";
    let offsets = align_words_to_offsets(text, &["他", "看见", "他"], 0).unwrap();

    assert_eq!(offsets, vec![(0, 3), (3, 9), (9, 12)]);
}

#[test]
fn align_words_to_offsets_reports_unmatched_words() {
    let error = align_words_to_offsets("他看见海", &["他", "不存在"], 0)
        .expect_err("missing word should fail alignment");

    assert!(error.message().contains("cannot align word"));
    assert_eq!(error.word, "不存在");
}

#[test]
fn annotation_cache_loads_chunks_on_demand() {
    let text = "他打开门。她跑步。他看见海。";
    let text_source = TextSource::from_bytes(text.as_bytes());
    let analyzer = JiebaAnalyzer::new();
    let chunks = plan_chunks(&text_source, 12);
    let manifest = AnnotationManifest { source_file_len: text_source.file_len(), chunk_size: 12, chunks };

    let mut built_cache = AnnotationCache::from_manifest("annotations".to_string(), manifest.clone());

    assert!(built_cache.chunk_count() > 1);
    assert_eq!(built_cache.loaded_chunk_count(), 0);

    for index in built_cache.chunks_for_range(0, 12) {
        let chunk = built_cache.manifest().chunks[index];
        let chunk_text = text_source.read_from_offset(chunk.start_offset, 12);
        built_cache.insert_chunk(index, analyzer.analyze(&chunk_text, chunk.start_offset).unwrap());
    }
    let annotations = built_cache.query_loaded(0, 12);

    assert!(!annotations.is_empty());
    assert_eq!(built_cache.loaded_chunk_count(), 1);
    assert!(annotations.iter().all(|a| a.start_offset < 12 && a.end_offset > 0));

    let loaded_cache = AnnotationCache::from_manifest("annotations".to_string(), manifest);

    assert_eq!(loaded_cache.chunk_count(), built_cache.chunk_count());
    assert_eq!(loaded_cache.loaded_chunk_count(), 0);
    assert!(manifest_is_fresh(loaded_cache.manifest(), text.len() as u64));
    assert!(!manifest_is_fresh(loaded_cache.manifest(), 1));
}

#[test]
fn chunk_plan_covers_the_text_in_order() {
    let text = "他打开门。她跑步。他看见海。";
    let text_source = TextSource::from_bytes(text.as_bytes());
    let chunks = plan_chunks(&text_source, 12);
    assert_eq!(chunks.len(), 4);
    assert_eq!(chunks[0].start_offset, 0);
    for pair in chunks.windows(2) {
        assert_eq!(pair[0].end_offset, pair[1].start_offset);
        assert_eq!(pair[0].index + 1, pair[1].index);
    }
    assert_eq!(chunks.last().unwrap().end_offset, text.len() as u64);
}

#[test]
fn a_loaded_chunk_is_kept_as_it_was() {
    let text_source = TextSource::from_bytes("abcdef".as_bytes());
    let chunks = plan_chunks(&text_source, 4);
    let manifest = AnnotationManifest { source_file_len: 6, chunk_size: 4, chunks };
    let mut cache = AnnotationCache::from_manifest("root".to_string(), manifest);
    let first = Annotation { start_offset: 0, end_offset: 2, kind: AnnotationKind::Noun };
    let second = Annotation { start_offset: 0, end_offset: 2, kind: AnnotationKind::Verb };
    cache.insert_chunk(0, vec![first]);
    cache.insert_chunk(0, vec![second]);
    assert!(cache.is_loaded(0));
    assert!(!cache.is_loaded(1));
    assert_eq!(cache.query_loaded(0, 4), [first]);
    assert_eq!(cache.root_path(), "root");
}

fn page_text(page: &HighlightedPage) -> String {
    page.lines.iter().flat_map(|line| line.iter()).map(|span| span.text.as_str()).collect::<String>()
}

#[test]
fn highlighted_render_keeps_all_visible_text() {
    let text = "\u{4ed6}\u{6253}\u{5f00}\u{95e8}";
    let annotations = vec![Annotation { start_offset: 3, end_offset: 9, kind: AnnotationKind::Verb }];

    let page = render_highlighted_page(text, 0, 20, 2, &annotations);

    assert_eq!(page_text(&page), text);
    assert_eq!(page.end_offset, text.len() as u64);
    assert_eq!(page.lines[0].len(), 3);
    assert_eq!(page.lines[0][1].text, "\u{6253}\u{5f00}");
    assert_eq!(page.lines[0][1].kind, Some(AnnotationKind::Verb));
    assert_eq!(page.lines[0][0].kind, None);
}

#[test]
fn highlighted_render_does_not_embed_newline_inside_ratatui_lines() {
    let page = render_highlighted_page("第一行\n第二行\n第三行", 0, 20, 2, &[]);

    assert_eq!(page.lines.len(), 2);
    assert!(page.lines.iter().flat_map(|line| line.iter()).all(|span| !span.text.contains('\n')));
}

#[test]
fn highlighted_render_does_not_embed_carriage_return_inside_ratatui_lines() {
    let page = render_highlighted_page("第一行\r\n第二行\r\n第三行", 0, 20, 2, &[]);

    assert_eq!(page.lines.len(), 2);
    assert!(page.lines.iter().flat_map(|line| line.iter()).all(|span| !span.text.contains('\r')));
}

#[test]
fn highlighted_render_treats_crlf_as_a_single_line_break() {
    let page = render_highlighted_page("第一行\r\n第二行", 0, 20, 3, &[]);
    let rendered_lines = page
        .lines
        .iter()
        .map(|line| line.iter().map(|span| span.text.as_str()).collect::<String>())
        .collect::<Vec<_>>();

    assert_eq!(rendered_lines, vec!["第一行", "第二行"]);
}

#[test]
fn highlighted_render_merges_adjacent_text_with_same_style() {
    let page = render_highlighted_page("abcdef", 0, 20, 2, &[]);

    assert_eq!(page.lines.len(), 1);
    assert_eq!(page.lines[0].len(), 1);
    assert_eq!(page.lines[0][0].text, "abcdef");
}

#[test]
fn query_reads_missing_chunks_once_and_reports_read_errors() {
    let text_source = TextSource::from_bytes("abcdefghij".as_bytes());
    let chunks = plan_chunks(&text_source, 4);
    let manifest = AnnotationManifest { source_file_len: 10, chunk_size: 4, chunks };
    let mut cache = AnnotationCache::from_manifest("root".to_string(), manifest);
    let reads = Cell::new(0);
    let loader = |index: usize| -> Result<Vec<Annotation>, String> {
        reads.set(reads.get() + 1);
        let start = index as u64 * 4;
        Ok(vec![Annotation { start_offset: start, end_offset: start + 2, kind: AnnotationKind::Noun }])
    };

    let found = cache.query(3, 9, &loader).unwrap();
    assert_eq!(
        found,
        [
            Annotation { start_offset: 4, end_offset: 6, kind: AnnotationKind::Noun },
            Annotation { start_offset: 8, end_offset: 10, kind: AnnotationKind::Noun },
        ]
    );
    assert_eq!(reads.get(), 3);
    assert_eq!(cache.loaded_chunk_count(), 3);

    let again = cache.query(0, 10, &loader).unwrap();
    assert_eq!(again.len(), 3);
    assert_eq!(reads.get(), 3);

    let mut fresh = AnnotationCache::from_manifest("root".to_string(), cache.manifest().clone());
    let failing = |index: usize| -> Result<Vec<Annotation>, String> {
        if index == 1 { Err("missing chunk".to_string()) } else { Ok(Vec::new()) }
    };
    assert_eq!(fresh.query(0, 10, failing), Err("missing chunk".to_string()));
    assert!(fresh.is_loaded(0));
    assert!(!fresh.is_loaded(1));
}

#[test]
fn cache_is_built_once_and_then_loaded_from_its_manifest() {
    let text = "他打开门。她跑步。他看见海。";
    let text_source = TextSource::from_bytes(text.as_bytes());
    let analyzer = JiebaAnalyzer::new();
    let prepared = RefCell::new(0);
    let saved_chunks: RefCell<Vec<(usize, usize)>> = RefCell::new(Vec::new());
    let saved_manifest: RefCell<Option<AnnotationManifest>> = RefCell::new(None);

    let built = AnnotationCache::load_or_build(
        "annotations".to_string(),
        &text_source,
        12,
        None,
        || {
            *prepared.borrow_mut() += 1;
            Ok(())
        },
        |chunk: String, base: u64| analyzer.analyze(&chunk, base),
        |index: usize, annotations: Vec<Annotation>| {
            saved_chunks.borrow_mut().push((index, annotations.len()));
            Ok(())
        },
        |manifest: &AnnotationManifest| {
            *saved_manifest.borrow_mut() = Some(manifest.clone());
            Ok(())
        },
    )
    .unwrap();

    assert_eq!(*prepared.borrow(), 1);
    assert_eq!(built.chunk_count(), 4);
    assert_eq!(built.loaded_chunk_count(), 0);
    let indexes: Vec<usize> = saved_chunks.borrow().iter().map(|(index, _)| *index).collect();
    assert_eq!(indexes, [0, 1, 2, 3]);
    assert!(saved_chunks.borrow().iter().any(|(_, count)| *count > 0));

    let manifest = saved_manifest.borrow().clone().unwrap();
    assert_eq!(manifest.source_file_len, text.len() as u64);
    let loaded = AnnotationCache::load_or_build(
        "annotations".to_string(),
        &text_source,
        12,
        Some(manifest),
        || Err("must not rebuild".to_string()),
        |_: String, _: u64| Err("must not analyze".to_string()),
        |_: usize, _: Vec<Annotation>| Err("must not save".to_string()),
        |_: &AnnotationManifest| Err("must not save".to_string()),
    )
    .unwrap();
    assert_eq!(loaded.chunk_count(), 4);
    assert_eq!(loaded.root_path(), "annotations");

    let failed = AnnotationCache::load_or_build(
        "annotations".to_string(),
        &text_source,
        12,
        None,
        || Ok(()),
        |_: String, _: u64| Err("analyzer failed".to_string()),
        |_: usize, _: Vec<Annotation>| Ok(()),
        |_: &AnnotationManifest| Ok(()),
    );
    assert_eq!(failed.err(), Some("analyzer failed".to_string()));
}

#[test]
fn repeating_a_query_gives_the_same_answer_and_reads_nothing() {
    let text_source = TextSource::from_bytes("abcdefghijkl".as_bytes());
    let chunks = plan_chunks(&text_source, 4);
    let manifest = AnnotationManifest { source_file_len: 12, chunk_size: 4, chunks };
    let mut cache = AnnotationCache::from_manifest("root".to_string(), manifest);
    let reads = Cell::new(0);
    let loader = |index: usize| -> Result<Vec<Annotation>, String> {
        reads.set(reads.get() + 1);
        let start = index as u64 * 4;
        Ok(vec![Annotation { start_offset: start + 1, end_offset: start + 3, kind: AnnotationKind::Verb }])
    };
    let first = cache.query(2, 7, &loader).unwrap();
    assert_eq!(reads.get(), 2);
    let loaded = cache.loaded_chunk_count();
    let second = cache.query(2, 7, &loader).unwrap();
    assert_eq!(second, first);
    assert_eq!(reads.get(), 2);
    assert_eq!(cache.loaded_chunk_count(), loaded);
}

#[test]
fn highlighting_consumes_the_same_bytes_as_the_plain_layout() {
    let text = "\u{4e00}\u{4e8c}\u{4e09}\nab\u{56db}\u{4e94}cd\u{516d}\u{4e03}";
    let annotations = vec![Annotation { start_offset: 0, end_offset: 6, kind: AnnotationKind::Noun }];
    for (columns, rows) in [(4u16, 2u16), (3, 3), (20, 1), (1, 4)] {
        let plain = reading_cli::page_layout::layout_page(text, 10, columns, rows);
        let shown = render_highlighted_page(text, 10, columns, rows, &annotations);
        assert_eq!(shown.end_offset, plain.end_offset);
    }
}

#[test]
fn a_query_loads_exactly_the_missing_chunks_of_its_range() {
    let text_source = TextSource::from_bytes("abcdefghijklmnop".as_bytes());
    let chunks = plan_chunks(&text_source, 4);
    let manifest = AnnotationManifest { source_file_len: 16, chunk_size: 4, chunks };
    let mut cache = AnnotationCache::from_manifest("root".to_string(), manifest);
    let loader = |_: usize| -> Result<Vec<Annotation>, String> { Ok(Vec::new()) };
    cache.query(0, 5, &loader).unwrap();
    assert_eq!(cache.loaded_chunk_count(), 2);
    cache.query(3, 13, &loader).unwrap();
    assert_eq!(cache.loaded_chunk_count(), 4);
    assert_eq!(cache.chunk_count(), 4);
}
