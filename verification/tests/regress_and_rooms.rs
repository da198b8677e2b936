use gm2tiled::regress::{build_notes, csv_content, csv_escape, determine_status, join_strings, CsvRow};
use gm2tiled::render::{PixelDiffMetrics, ReferenceStats};
use gm2tiled::rooms::{json_room_name, sort_room_names, split_room_list};

fn stats(static_draw_ops: u64, gms2_flagged_tiles: u64, instance_count: usize, enabled_view_count: usize) -> ReferenceStats {
    ReferenceStats { static_draw_ops, gms2_flagged_tiles, instance_count, enabled_view_count }
}

fn metrics(ae_pixels: u64, size_match: bool) -> PixelDiffMetrics {
    PixelDiffMetrics { ae_pixels, squared_error: 0, total_pixels: 1, size_match }
}

#[test]
fn status_follows_the_first_rule_that_applies() {
    assert_eq!(determine_status(&stats(0, 3, 0, 0), &metrics(5, false)), "NO_STATIC_MAP");
    assert_eq!(determine_status(&stats(4, 3, 0, 0), &metrics(5, false)), "UNSUPPORTED_FLAGS");
    assert_eq!(determine_status(&stats(4, 0, 0, 0), &metrics(0, false)), "FAIL_SIZE");
    assert_eq!(determine_status(&stats(4, 0, 0, 0), &metrics(0, true)), "PASS");
    assert_eq!(determine_status(&stats(4, 0, 0, 0), &metrics(1, true)), "FAIL");
}

#[test]
fn notes_list_what_the_comparison_leaves_out() {
    assert_eq!(build_notes(&stats(5, 0, 0, 0)), "");
    assert_eq!(
        build_notes(&stats(0, 7, 12, 1)),
        "instances_skipped=12;views_ignored=1;gms2_flags_ignored=7;no_static_tiles"
    );
    assert_eq!(build_notes(&stats(9, 0, 3, 0)), "instances_skipped=3");
}

#[test]
fn csv_fields_are_quoted_only_when_needed() {
    assert_eq!(csv_escape("plain"), "plain");
    assert_eq!(csv_escape("a,b"), "\"a,b\"");
    assert_eq!(csv_escape("say \"hi\""), "\"say \"\"hi\"\"\"");
    assert_eq!(csv_escape("two\nlines"), "\"two\nlines\"");
    assert_eq!(csv_escape(""), "");
}

#[test]
fn csv_report_has_a_header_and_one_line_per_room() {
    let row = CsvRow {
        dataset: "ut".to_string(),
        room: "room_a".to_string(),
        status: "PASS".to_string(),
        ae_pixels: "0".to_string(),
        ae_percent: "0.00000000".to_string(),
        rmse: "0.00000000".to_string(),
        size_match: "true".to_string(),
        static_draw_ops: "4".to_string(),
        gms2_flagged_tiles: "0".to_string(),
        instance_count: "2".to_string(),
        enabled_view_count: "0".to_string(),
        notes: "a;b, c".to_string(),
    };
    let text = csv_content(&vec![row]);
    assert_eq!(
        text,
        "dataset,room,status,ae_pixels,ae_percent,rmse,size_match,static_draw_ops,gms2_flagged_tiles,instance_count,enabled_view_count,notes\n\
         ut,room_a,PASS,0,0.00000000,0.00000000,true,4,0,2,0,\"a;b, c\"\n"
    );
    assert_eq!(csv_content(&vec![]).lines().count(), 1);
}

#[test]
fn joined_strings_have_one_separator_between_each_two() {
    let parts = vec!["a".to_string(), "".to_string(), "c".to_string()];
    assert_eq!(join_strings(&parts, "--"), "a----c");
    assert_eq!(join_strings(&vec![], ";"), "");
}

#[test]
fn room_lists_split_on_commas_and_trim_each_name() {
    assert_eq!(split_room_list("room_ruins1,room_ruins2"), vec!["room_ruins1", "room_ruins2"]);
    assert_eq!(split_room_list(" a ,\tb,,c \u{3000}"), vec!["a", "b", "", "c"]);
    assert_eq!(split_room_list(""), vec![""]);
    assert_eq!(split_room_list(","), vec!["", ""]);
}

#[test]
fn room_files_are_json_files_named_after_their_room() {
    assert_eq!(json_room_name("a_room.json").as_deref(), Some("a_room"));
    assert_eq!(json_room_name("a.b.json").as_deref(), Some("a.b"));
    assert_eq!(json_room_name("ignore.txt"), None);
    assert_eq!(json_room_name(".json"), None);
    assert_eq!(json_room_name("json"), None);
    assert_eq!(json_room_name("x.JSON"), None);
    assert_eq!(json_room_name("..json").as_deref(), Some("."));
}

#[test]
fn room_names_sort_in_character_order() {
    let names = vec!["b_room".to_string(), "a_room".to_string()];
    assert_eq!(sort_room_names(names), vec!["a_room", "b_room"]);
    let names = vec![
        "room_b".to_string(),
        "room".to_string(),
        "Room".to_string(),
        "room_a".to_string(),
        "room".to_string(),
    ];
    assert_eq!(sort_room_names(names), vec!["Room", "room", "room", "room_a", "room_b"]);
    assert!(sort_room_names(vec![]).is_empty());
}
