use sheesy_vault::recipients::{
    insert_recipient, lines_of, normalize_recipients, parse_recipients, recipients_file,
    without_recipients,
};

fn list(items: &[&str]) -> Vec<String> {
    items.iter().map(|s| String::from(*s)).collect()
}

#[test]
fn recipients_are_sorted_and_kept_once() {
    assert_eq!(normalize_recipients(&list(&[])), list(&[]));
    assert_eq!(normalize_recipients(&list(&["B"])), list(&["B"]));
    assert_eq!(normalize_recipients(&list(&["B", "A"])), list(&["A", "B"]));
    assert_eq!(normalize_recipients(&list(&["B", "A", "B", "A", "C", "A"])), list(&["A", "B", "C"]));
    assert_eq!(
        normalize_recipients(&list(&["b", "B", "a", "A", "10", "9", ""])),
        list(&["", "10", "9", "A", "B", "a", "b"])
    );
}

#[test]
fn normal_form_is_that_of_sort_and_dedup() {
    let inputs = [
        list(&[]),
        list(&["9F1C", "0A00", "9F1C"]),
        list(&["z", "y", "x", "y", "z", "a"]),
        list(&["AB", "A", "ABC", "", "AB"]),
        list(&["é", "e", "f", "É", "e"]),
    ];
    for input in inputs.iter() {
        let mut expected = input.clone();
        expected.sort();
        expected.dedup();
        assert_eq!(&normalize_recipients(input), &expected);
    }
}

#[test]
fn insert_recipient_finds_the_place() {
    let mut recipients = list(&["B", "D"]);
    insert_recipient(&mut recipients, String::from("C"));
    assert_eq!(recipients, list(&["B", "C", "D"]));
    insert_recipient(&mut recipients, String::from("A"));
    assert_eq!(recipients, list(&["A", "B", "C", "D"]));
    insert_recipient(&mut recipients, String::from("E"));
    assert_eq!(recipients, list(&["A", "B", "C", "D", "E"]));
    insert_recipient(&mut recipients, String::from("C"));
    assert_eq!(recipients, list(&["A", "B", "C", "D", "E"]));
}

#[test]
fn recipients_file_has_one_recipient_to_a_line() {
    let k1 = "7F2A9C41B6D0E8135A4C7E9B2D6F0A1834C5E7B9";
    let k2 = "2B8D4F6A1C3E5079B1D3F5A7C9E1B3D5F7A9C1E3";
    assert_eq!(recipients_file(&list(&[k1, k2, k1])), format!("{}\n{}\n", k2, k1));
    assert_eq!(recipients_file(&list(&[])), "");
    assert_eq!(recipients_file(&list(&["A"])), "A\n");
}

#[test]
fn lines_of_keeps_the_order() {
    assert_eq!(lines_of(&list(&["b", "a", "b"])), "b\na\nb\n");
    assert_eq!(lines_of(&list(&[])), "");
}

#[test]
fn recipients_are_read_from_lines() {
    assert_eq!(parse_recipients(""), list(&[]));
    assert_eq!(parse_recipients("A\nB\n"), list(&["A", "B"]));
    assert_eq!(parse_recipients("A\nB"), list(&["A", "B"]));
    assert_eq!(parse_recipients("\n\nA\n\n\nB\n\n"), list(&["A", "B"]));
    assert_eq!(parse_recipients("\n"), list(&[]));
    assert_eq!(parse_recipients("B\nA\nB\n"), list(&["B", "A", "B"]));
    assert_eq!(parse_recipients("é ü\n日本\n"), list(&["é ü", "日本"]));
}

#[test]
fn recipients_file_is_read_back() {
    let k1 = "7F2A9C41B6D0E8135A4C7E9B2D6F0A1834C5E7B9";
    let k2 = "2B8D4F6A1C3E5079B1D3F5A7C9E1B3D5F7A9C1E3";
    let written = recipients_file(&list(&[k1, k2, k1]));
    assert_eq!(parse_recipients(&written), list(&[k2, k1]));
    assert_eq!(parse_recipients(&lines_of(&list(&["x", "y", "x"]))), list(&["x", "y", "x"]));
}

#[test]
fn recipients_are_removed() {
    assert_eq!(without_recipients(&list(&["C", "A", "B", "A"]), &list(&["A"])), list(&["B", "C"]));
    assert_eq!(without_recipients(&list(&["C", "A"]), &list(&[])), list(&["A", "C"]));
    assert_eq!(without_recipients(&list(&["C", "A"]), &list(&["X", "C", "A"])), list(&[]));
    assert_eq!(without_recipients(&list(&[]), &list(&["A"])), list(&[]));
}
