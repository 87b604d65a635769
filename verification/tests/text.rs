use rsnowboy::model::model_paths;
use rsnowboy::sensitivity::SensitivityVector;
use rsnowboy::text::{chars_of, split_text};

fn strings(items: &[&str]) -> Vec<String> {
    items.iter().map(|s| s.to_string()).collect()
}

#[test]
fn a_text_is_cut_at_every_separator() {
    assert_eq!(split_text("a,b,,c", ','), strings(&["a", "b", "", "c"]));
    assert_eq!(split_text("abc", ','), strings(&["abc"]));
    assert_eq!(split_text(",", ','), strings(&["", ""]));
    assert_eq!(split_text(",x", ','), strings(&["", "x"]));
    assert_eq!(split_text("x,", ','), strings(&["x", ""]));
}

#[test]
fn the_empty_text_is_one_empty_piece() {
    assert_eq!(split_text("", ','), strings(&[""]));
}

#[test]
fn characters_beyond_ascii_are_kept_whole() {
    assert_eq!(split_text("né,üb,日本", ','), strings(&["né", "üb", "日本"]));
    assert_eq!(chars_of("né"), vec!['n', 'é']);
}

#[test]
fn joining_the_pieces_gives_the_text_back() {
    for text in ["0", "0.5,1", "0.5,0.50,1", "1.0,0.0,0.12345678", "0,0,0,0,0,0,0"] {
        let pieces = split_text(text, ',');
        let mut list = SensitivityVector::new();
        for piece in pieces.iter() {
            assert!(list.push(piece));
        }
        assert_eq!(list.format(), text);
        assert_eq!(split_text(&list.format(), ','), pieces);
    }
}

#[test]
fn a_model_list_names_its_files_in_order() {
    assert_eq!(model_paths("foo.pmdl,bar.umdl"), strings(&["foo.pmdl", "bar.umdl"]));
    assert_eq!(model_paths("resources/models/snowboy.umdl"), strings(&["resources/models/snowboy.umdl"]));
    assert_eq!(model_paths(""), strings(&[""]));
}
