use safe_writing::data_structures::{Passage, PlainText};

fn titles(doc: &PlainText) -> Vec<String> {
    doc.passages().iter().map(|p| p.title().clone()).collect()
}

fn ids(doc: &PlainText) -> Vec<usize> {
    (0..doc.num_passages())
        .map(|i| doc.id_of_passage(i).unwrap())
        .collect()
}

#[test]
fn passage_holds_what_it_was_given() {
    let passage = Passage::new(7, "title".to_string(), "text".to_string());
    assert_eq!(passage.title(), "title");
    assert_eq!(passage.content(), "text");
    assert_eq!(passage.clone(), passage);
}

#[test]
fn empty_note_has_nothing() {
    let doc = PlainText::empty();
    assert!(doc.is_empty());
    assert_eq!(doc.num_passages(), 0);
    assert_eq!(doc.num_images(), 0);
    assert_eq!(doc.get_first_passage_text(), None);
    assert_eq!(doc.title_of_passage(0), None);
    assert_eq!(doc.content_of_passage(0), None);
    assert_eq!(doc.id_of_passage(0), None);
    assert_eq!(doc, PlainText::default());
    assert_eq!(doc, PlainText::new(0, vec![], vec![]));
}

#[test]
fn new_takes_its_parts_as_they_are() {
    let doc = PlainText::new(
        9,
        vec![Passage::new(4, "a".to_string(), "b".to_string())],
        vec![vec![1]],
    );
    assert_eq!(doc.id_of_passage(0), Some(4));
    assert_eq!(doc.num_images(), 1);
    let mut doc = doc;
    doc.insert_new_passage(1, "c".to_string());
    assert_eq!(doc.id_of_passage(1), Some(9));
}

#[test]
fn from_passages_numbers_by_position() {
    let doc = PlainText::from_passages(vec![
        Passage::new(5, "a".to_string(), "x".to_string()),
        Passage::new(5, "b".to_string(), "y".to_string()),
        Passage::new(0, "c".to_string(), "z".to_string()),
    ]);
    assert_eq!(ids(&doc), vec![0, 1, 2]);
    assert_eq!(titles(&doc), vec!["a", "b", "c"]);
    assert_eq!(doc.num_images(), 0);
    let mut doc = doc;
    doc.insert_new_passage(0, "d".to_string());
    assert_eq!(ids(&doc), vec![3, 0, 1, 2]);
    let doc = PlainText::from_passages_images(
        vec![Passage::new(8, "a".to_string(), "x".to_string())],
        vec![vec![1], vec![2, 3]],
    );
    assert_eq!(ids(&doc), vec![0]);
    assert_eq!(doc.images(), &vec![vec![1u8], vec![2, 3]]);
}

#[test]
fn identifiers_are_never_handed_out_twice() {
    let mut doc = PlainText::empty();
    doc.insert_new_passage(0, "a".to_string());
    doc.insert_new_passage(1, "b".to_string());
    doc.insert_new_passage(1, "c".to_string());
    assert_eq!(titles(&doc), vec!["a", "c", "b"]);
    assert_eq!(ids(&doc), vec![0, 2, 1]);
    let removed = doc.remove_passage(1);
    assert_eq!(removed, Passage::new(2, "c".to_string(), String::new()));
    doc.remove_passage(1);
    doc.remove_passage(0);
    assert!(doc.is_empty());
    doc.insert_new_passage(0, "d".to_string());
    assert_eq!(ids(&doc), vec![3]);
    assert_eq!(doc.content_of_passage(0), Some(&String::new()));
}

#[test]
fn next_identifier_only_grows() {
    let mut doc = PlainText::empty();
    assert_eq!(doc.next_id(), 0);
    doc.insert_new_passage(0, "a".to_string());
    doc.insert_new_passage(0, "b".to_string());
    assert_eq!(doc.next_id(), 2);
    doc.remove_passage(0);
    doc.swap(0, 0);
    doc.set_title(0, "c".to_string());
    assert_eq!(doc.next_id(), 2);
    doc.append_plaintext(&doc.clone());
    assert_eq!(doc.next_id(), 3);
    assert_eq!(ids(&doc), vec![0, 2]);
    assert_eq!(PlainText::new(7, vec![], vec![]).next_id(), 7);
    assert_eq!(
        PlainText::from_passages(vec![Passage::new(9, String::new(), String::new())]).next_id(),
        1
    );
}

#[test]
fn titles_and_texts_can_be_replaced() {
    let mut doc = PlainText::empty();
    doc.insert_new_passage(0, "a".to_string());
    doc.insert_new_passage(1, "b".to_string());
    doc.set_title(1, "B".to_string());
    doc.set_content(1, "text of B".to_string());
    assert_eq!(titles(&doc), vec!["a", "B"]);
    assert_eq!(doc.title_of_passage(1), Some("B".to_string()));
    assert_eq!(doc.content_of_passage(1), Some(&"text of B".to_string()));
    assert_eq!(doc.content_of_passage(0), Some(&String::new()));
    assert_eq!(doc.get_first_passage_text(), Some(String::new()));
    assert_eq!(ids(&doc), vec![0, 1]);
    doc.content_of_passage_mut(0).unwrap().push_str("typed");
    assert_eq!(doc.get_first_passage_text(), Some("typed".to_string()));
    assert_eq!(doc.content_of_passage(1), Some(&"text of B".to_string()));
    assert!(doc.content_of_passage_mut(2).is_none());
}

#[test]
fn swap_exchanges_two_passages() {
    let mut doc = PlainText::empty();
    doc.insert_new_passage(0, "a".to_string());
    doc.insert_new_passage(1, "b".to_string());
    doc.insert_new_passage(2, "c".to_string());
    doc.swap(0, 2);
    assert_eq!(titles(&doc), vec!["c", "b", "a"]);
    assert_eq!(ids(&doc), vec![2, 1, 0]);
    doc.swap(1, 1);
    assert_eq!(titles(&doc), vec!["c", "b", "a"]);
    doc.swap(2, 1);
    assert_eq!(titles(&doc), vec!["c", "a", "b"]);
}

#[test]
fn bounded_index_stays_inside() {
    let mut doc = PlainText::empty();
    assert_eq!(doc.bounded_index(0), 0);
    assert_eq!(doc.bounded_index(5), 0);
    doc.insert_new_passage(0, "a".to_string());
    doc.insert_new_passage(1, "b".to_string());
    doc.insert_new_passage(2, "c".to_string());
    assert_eq!(doc.bounded_index(0), 0);
    assert_eq!(doc.bounded_index(2), 2);
    assert_eq!(doc.bounded_index(3), 2);
    assert_eq!(doc.bounded_index(usize::MAX), 2);
}

#[test]
fn appended_passages_get_fresh_identifiers() {
    let mut doc = PlainText::empty();
    doc.insert_new_passage(0, "a".to_string());
    doc.insert_new_passage(1, "b".to_string());
    doc.remove_passage(0);
    let mut other = PlainText::from_passages_images(
        vec![
            Passage::new(0, "x".to_string(), "1".to_string()),
            Passage::new(0, "y".to_string(), "2".to_string()),
        ],
        vec![vec![9]],
    );
    other.swap(0, 1);
    doc.append_plaintext(&other);
    assert_eq!(titles(&doc), vec!["b", "y", "x"]);
    assert_eq!(ids(&doc), vec![1, 2, 3]);
    assert_eq!(doc.content_of_passage(2), Some(&"1".to_string()));
    assert_eq!(doc.num_images(), 0);
    assert_eq!(ids(&other), vec![1, 0]);
    doc.insert_new_passage(3, "z".to_string());
    assert_eq!(ids(&doc), vec![1, 2, 3, 4]);
    doc.append_plaintext(&PlainText::empty());
    assert_eq!(doc.num_passages(), 4);
}

#[test]
fn images_can_be_changed_in_place() {
    let mut doc = PlainText::empty();
    doc.insert_new_passage(0, "a".to_string());
    doc.images_mut().push(vec![1, 2]);
    doc.images_mut().push(vec![3]);
    assert_eq!(doc.num_images(), 2);
    doc.images_mut().remove(0);
    assert_eq!(doc.images(), &vec![vec![3u8]]);
    assert_eq!(titles(&doc), vec!["a"]);
    assert_eq!(ids(&doc), vec![0]);
}

#[test]
fn clone_is_equal_and_separate() {
    let mut doc = PlainText::empty();
    doc.insert_new_passage(0, "a".to_string());
    doc.images_mut().push(vec![1, 2]);
    let copy = doc.clone();
    assert_eq!(copy, doc);
    doc.set_title(0, "b".to_string());
    assert_eq!(copy.title_of_passage(0), Some("a".to_string()));
    assert_ne!(copy, doc);
}
