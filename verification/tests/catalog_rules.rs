use nokkonenshelfapi::catalog::books::BookPatch;
use nokkonenshelfapi::catalog::rearrange::ShelfBookIds;
use nokkonenshelfapi::catalog::Catalog;
use nokkonenshelfapi::error::{BAD_REQUEST, INTERNAL_SERVER_ERROR};
use nokkonenshelfapi::ids::{same_ids, Id};

const ALICE: Id = 0xa11c_e000_0000_4000_8000_0000_0000_0001;
const BOB: Id = 0xb0b0_0000_0000_4000_8000_0000_0000_0002;

fn id(n: u128) -> Id {
    0x5eed_0000_0000_4000_8000_0000_0000_0000 + n
}

fn two_users() -> Catalog {
    let mut c = Catalog::new();
    assert!(c.add_user(ALICE, "alice".to_string(), "alice@example.com".to_string(), None).is_ok());
    assert!(c.add_user(BOB, "bob".to_string(), "bob@example.com".to_string(), None).is_ok());
    c
}

fn names(c: &Catalog, user: Id) -> Vec<String> {
    c.list_bookcases(user).into_iter().map(|b| b.name).collect()
}

fn no_patch() -> BookPatch {
    BookPatch { title: None, author: None, color: None, open_library_url: None, cover_url: None, shelf_id: None }
}

/// A bookcase of Alice with one shelf; returns (bookcase, shelf).
fn with_shelf(c: &mut Catalog) -> (Id, Id) {
    let b = c.create_bookcase(ALICE, "Case".to_string(), id(100), 0).unwrap_or_else(|_| panic!("case"));
    let s = c.create_shelf(ALICE, b.id, "Top".to_string(), id(200), 0).unwrap_or_else(|_| panic!("shelf"));
    (b.id, s.id)
}

fn add_book(c: &mut Catalog, shelf: Id, n: u128, title: &str) -> Id {
    c.create_book(ALICE, shelf, title.to_string(), "Author".to_string(), None, None, id(n), 0)
        .unwrap_or_else(|_| panic!("book"))
        .id
}

fn book_titles(c: &Catalog, shelf: Id) -> Vec<String> {
    c.list_books(ALICE, shelf).into_iter().map(|k| k.title).collect()
}

#[test]
fn same_ids_ignores_order_but_not_repetition() {
    assert!(same_ids(&vec![3, 1, 2], &vec![1, 2, 3]));
    assert!(!same_ids(&vec![1, 1, 2], &vec![1, 2, 2]));
    assert!(!same_ids(&vec![1, 2], &vec![1, 2, 3]));
    assert!(same_ids(&vec![], &vec![]));
}

#[test]
fn positions_grow_from_zero() {
    let mut c = two_users();
    let a = c.create_bookcase(ALICE, "A".to_string(), id(1), 0).unwrap_or_else(|_| panic!("a"));
    let b = c.create_bookcase(ALICE, "B".to_string(), id(2), 0).unwrap_or_else(|_| panic!("b"));
    let other = c.create_bookcase(BOB, "X".to_string(), id(3), 0).unwrap_or_else(|_| panic!("x"));
    assert_eq!((a.position, b.position, other.position), (0, 1, 0));
}

#[test]
fn reorder_three_then_list() {
    let mut c = two_users();
    for (n, name) in [(1u128, "A"), (2, "B"), (3, "C")] {
        assert!(c.create_bookcase(ALICE, name.to_string(), id(n), 0).is_ok());
    }
    assert!(c.reorder_bookcases(ALICE, &vec![id(3), id(1), id(2)]).is_ok());
    assert_eq!(names(&c, ALICE), vec!["C", "A", "B"]);
    let positions: Vec<i32> = c.list_bookcases(ALICE).into_iter().map(|b| b.position).collect();
    assert_eq!(positions, vec![0, 1, 2]);
    // A new bookcase comes last.
    let d = c.create_bookcase(ALICE, "D".to_string(), id(4), 0).unwrap_or_else(|_| panic!("d"));
    assert_eq!(d.position, 3);
    assert_eq!(names(&c, ALICE), vec!["C", "A", "B", "D"]);
}

#[test]
fn reorder_refusals() {
    let mut c = two_users();
    assert!(c.create_bookcase(ALICE, "A".to_string(), id(1), 0).is_ok());
    assert!(c.create_bookcase(ALICE, "B".to_string(), id(2), 0).is_ok());
    assert!(c.create_bookcase(BOB, "X".to_string(), id(3), 0).is_ok());
    for ids in [vec![id(1), id(1)], vec![id(1)], vec![id(1), id(2), id(3)], vec![id(1), id(3)]] {
        match c.reorder_bookcases(ALICE, &ids) {
            Ok(()) => panic!("accepted {:?}", ids),
            Err(e) => {
                assert_eq!(e.status, BAD_REQUEST);
                assert_eq!(e.message, "Provided IDs do not match the user's bookcases exactly");
            },
        }
    }
    assert_eq!(names(&c, ALICE), vec!["A", "B"]);
}

#[test]
fn other_users_are_untouched() {
    let mut c = two_users();
    assert!(c.create_bookcase(BOB, "X".to_string(), id(3), 0).is_ok());
    assert!(c.create_bookcase(BOB, "Y".to_string(), id(4), 0).is_ok());
    assert!(c.create_bookcase(ALICE, "A".to_string(), id(1), 0).is_ok());
    c.delete_bookcase(ALICE, id(3));
    assert!(c.update_bookcase(ALICE, id(4), "Stolen".to_string()).is_err());
    assert!(c.reorder_bookcases(ALICE, &vec![id(1)]).is_ok());
    assert_eq!(names(&c, BOB), vec!["X", "Y"]);
    assert_eq!(names(&c, ALICE), vec!["A"]);
}

#[test]
fn create_errors() {
    let mut c = two_users();
    let stranger: Id = 7;
    match c.create_bookcase(stranger, "A".to_string(), id(1), 0) {
        Ok(_) => panic!("unknown user"),
        Err(e) => assert_eq!(e.status, INTERNAL_SERVER_ERROR),
    }
    assert!(c.create_bookcase(ALICE, "A".to_string(), id(1), 0).is_ok());
    match c.create_bookcase(BOB, "B".to_string(), id(1), 0) {
        Ok(_) => panic!("taken id"),
        Err(e) => assert_eq!(e.status, INTERNAL_SERVER_ERROR),
    }
}

#[test]
fn rename_missing_bookcase_is_a_server_error() {
    let mut c = two_users();
    match c.update_bookcase(ALICE, id(1), "N".to_string()) {
        Ok(_) => panic!("renamed nothing"),
        Err(e) => {
            assert_eq!(e.status, INTERNAL_SERVER_ERROR);
            assert_eq!(e.message, "Bookcase not found");
        },
    }
}

#[test]
fn rename_keeps_the_order() {
    let mut c = two_users();
    assert!(c.create_bookcase(ALICE, "A".to_string(), id(1), 0).is_ok());
    assert!(c.create_bookcase(ALICE, "B".to_string(), id(2), 0).is_ok());
    let r = c.update_bookcase(ALICE, id(1), "Z".to_string()).unwrap_or_else(|_| panic!("rename"));
    assert_eq!(r.position, 0);
    assert_eq!(names(&c, ALICE), vec!["Z", "B"]);
}

#[test]
fn delete_is_idempotent_and_cascades() {
    let mut c = two_users();
    let (bookcase, shelf) = with_shelf(&mut c);
    add_book(&mut c, shelf, 1, "Dune");
    c.delete_bookcase(ALICE, bookcase);
    c.delete_bookcase(ALICE, bookcase);
    assert!(c.list_bookcases(ALICE).is_empty());
    assert!(c.shelves.is_empty());
    assert!(c.books.is_empty());
}

#[test]
fn shelves_follow_their_bookcase() {
    let mut c = two_users();
    let (bookcase, top) = with_shelf(&mut c);
    let middle = c.create_shelf(ALICE, bookcase, "Middle".to_string(), id(201), 0).unwrap_or_else(|_| panic!("m"));
    assert_eq!(middle.position, 1);
    match c.create_shelf(BOB, bookcase, "Mine".to_string(), id(202), 0) {
        Ok(_) => panic!("foreign bookcase"),
        Err(e) => {
            assert_eq!(e.status, BAD_REQUEST);
            assert_eq!(e.message, "Bookcase not found");
        },
    }
    assert!(c.list_shelves(BOB, bookcase).is_empty());
    match c.update_shelf(BOB, top, "Mine".to_string()) {
        Ok(_) => panic!("foreign shelf"),
        Err(e) => {
            assert_eq!(e.status, BAD_REQUEST);
            assert_eq!(e.message, "Shelf not found");
        },
    }
    assert_eq!(c.update_shelf(ALICE, top, "Upper".to_string()).unwrap_or_else(|_| panic!("u")).name, "Upper");
    assert!(c.reorder_shelves(ALICE, bookcase, &vec![middle.id, top]).is_ok());
    let listed: Vec<String> = c.list_shelves(ALICE, bookcase).into_iter().map(|s| s.name).collect();
    assert_eq!(listed, vec!["Middle", "Upper"]);
    match c.reorder_shelves(BOB, bookcase, &vec![middle.id, top]) {
        Ok(()) => panic!("foreign reorder"),
        Err(e) => assert_eq!(e.message, "Provided IDs do not match the bookcase's shelves exactly"),
    }
}

#[test]
fn deleting_a_shelf_deletes_its_books() {
    let mut c = two_users();
    let (_, shelf) = with_shelf(&mut c);
    add_book(&mut c, shelf, 1, "Dune");
    c.delete_shelf(BOB, shelf);
    assert_eq!(c.books.len(), 1);
    c.delete_shelf(ALICE, shelf);
    assert!(c.books.is_empty());
    assert!(c.shelves.is_empty());
}

#[test]
fn books_get_the_default_color() {
    let mut c = two_users();
    let (_, shelf) = with_shelf(&mut c);
    let plain = c
        .create_book(ALICE, shelf, "A".to_string(), "X".to_string(), None, None, id(1), 0)
        .unwrap_or_else(|_| panic!("a"));
    let red = c
        .create_book(ALICE, shelf, "B".to_string(), "Y".to_string(), Some("#ff0000".to_string()), Some("u".to_string()), id(2), 0)
        .unwrap_or_else(|_| panic!("b"));
    assert_eq!(plain.color, "#8B4513");
    assert_eq!(red.color, "#ff0000");
    assert_eq!(red.open_library_url, Some("u".to_string()));
    assert!(red.cover_url.is_none());
    assert_eq!((plain.position, red.position), (0, 1));
    match c.create_book(BOB, shelf, "C".to_string(), "Z".to_string(), None, None, id(3), 0) {
        Ok(_) => panic!("foreign shelf"),
        Err(e) => {
            assert_eq!(e.status, BAD_REQUEST);
            assert_eq!(e.message, "Shelf not found");
        },
    }
}

#[test]
fn patch_changes_only_given_fields() {
    let mut c = two_users();
    let (_, shelf) = with_shelf(&mut c);
    let k = add_book(&mut c, shelf, 1, "Dune");
    let mut patch = no_patch();
    patch.title = Some("Dune Messiah".to_string());
    patch.cover_url = Some("cover.png".to_string());
    let changed = c.update_book(ALICE, k, patch).unwrap_or_else(|_| panic!("patch"));
    assert_eq!(changed.title, "Dune Messiah");
    assert_eq!(changed.author, "Author");
    assert_eq!(changed.color, "#8B4513");
    assert_eq!(changed.cover_url, Some("cover.png".to_string()));
    match c.update_book(BOB, k, no_patch()) {
        Ok(_) => panic!("foreign book"),
        Err(e) => {
            assert_eq!(e.status, BAD_REQUEST);
            assert_eq!(e.message, "Book not found");
        },
    }
}

#[test]
fn moving_a_book_puts_it_last() {
    let mut c = two_users();
    let (bookcase, top) = with_shelf(&mut c);
    let low = c.create_shelf(ALICE, bookcase, "Low".to_string(), id(201), 0).unwrap_or_else(|_| panic!("l")).id;
    let k = add_book(&mut c, top, 1, "Dune");
    add_book(&mut c, low, 2, "Emma");
    add_book(&mut c, low, 3, "Faust");
    let mut patch = no_patch();
    patch.shelf_id = Some(low);
    let moved = c.update_book(ALICE, k, patch).unwrap_or_else(|_| panic!("move"));
    assert_eq!((moved.shelf_id, moved.position), (low, 2));
    assert_eq!(book_titles(&c, low), vec!["Emma", "Faust", "Dune"]);
    assert!(book_titles(&c, top).is_empty());
    let bob_bookcase = c.create_bookcase(BOB, "Bob".to_string(), id(300), 0).unwrap_or_else(|_| panic!("bc")).id;
    let bob_shelf = c.create_shelf(BOB, bob_bookcase, "S".to_string(), id(301), 0).unwrap_or_else(|_| panic!("bs")).id;
    let mut away = no_patch();
    away.shelf_id = Some(bob_shelf);
    match c.update_book(ALICE, k, away) {
        Ok(_) => panic!("foreign target"),
        Err(e) => {
            assert_eq!(e.status, BAD_REQUEST);
            assert_eq!(e.message, "Target shelf not found");
        },
    }
}

#[test]
fn reorder_books_then_list() {
    let mut c = two_users();
    let (_, shelf) = with_shelf(&mut c);
    let a = add_book(&mut c, shelf, 1, "A");
    let b = add_book(&mut c, shelf, 2, "B");
    let d = add_book(&mut c, shelf, 3, "C");
    assert!(c.reorder_books(ALICE, shelf, &vec![d, a, b]).is_ok());
    assert_eq!(book_titles(&c, shelf), vec!["C", "A", "B"]);
    match c.reorder_books(ALICE, shelf, &vec![d, a]) {
        Ok(()) => panic!("missing book"),
        Err(e) => assert_eq!(e.message, "Provided IDs do not match the shelf's books exactly"),
    }
}

#[test]
fn rearrange_a_whole_bookcase() {
    let mut c = two_users();
    let (bookcase, top) = with_shelf(&mut c);
    let low = c.create_shelf(ALICE, bookcase, "Low".to_string(), id(201), 0).unwrap_or_else(|_| panic!("l")).id;
    let a = add_book(&mut c, top, 1, "A");
    let b = add_book(&mut c, top, 2, "B");
    let d = add_book(&mut c, low, 3, "C");
    let plan = vec![ShelfBookIds { id: top, book_ids: vec![d] }, ShelfBookIds { id: low, book_ids: vec![b, a] }];
    assert!(c.reorder_bookcase_books(ALICE, bookcase, &plan).is_ok());
    assert_eq!(book_titles(&c, top), vec!["C"]);
    assert_eq!(book_titles(&c, low), vec!["B", "A"]);
    let wrong_shelves = vec![ShelfBookIds { id: top, book_ids: vec![a, b, d] }];
    match c.reorder_bookcase_books(ALICE, bookcase, &wrong_shelves) {
        Ok(()) => panic!("missing shelf"),
        Err(e) => {
            assert_eq!(e.status, BAD_REQUEST);
            assert_eq!(e.message, "Provided shelf IDs do not match the bookcase's shelves");
        },
    }
    let wrong_books = vec![ShelfBookIds { id: top, book_ids: vec![a] }, ShelfBookIds { id: low, book_ids: vec![b] }];
    match c.reorder_bookcase_books(ALICE, bookcase, &wrong_books) {
        Ok(()) => panic!("missing book"),
        Err(e) => {
            assert_eq!(e.status, BAD_REQUEST);
            assert_eq!(e.message, "Provided book IDs do not match the bookcase's books");
        },
    }
}

#[test]
fn detail_orders_shelves_and_books() {
    let mut c = two_users();
    let (bookcase, top) = with_shelf(&mut c);
    let low = c.create_shelf(ALICE, bookcase, "Low".to_string(), id(201), 0).unwrap_or_else(|_| panic!("l")).id;
    let a = add_book(&mut c, low, 1, "A");
    let b = add_book(&mut c, low, 2, "B");
    add_book(&mut c, top, 3, "T");
    assert!(c.reorder_shelves(ALICE, bookcase, &vec![low, top]).is_ok());
    assert!(c.reorder_books(ALICE, low, &vec![b, a]).is_ok());
    let detail = c.bookcase_detail(ALICE, bookcase).unwrap_or_else(|_| panic!("detail"));
    assert_eq!(detail.shelves[0].shelf.name, "Low");
    let low_titles: Vec<String> = detail.shelves[0].books.iter().map(|k| k.title.clone()).collect();
    assert_eq!(low_titles, vec!["B", "A"]);
    assert_eq!(detail.shelves[1].books[0].title, "T");
    match c.bookcase_detail(BOB, bookcase) {
        Ok(_) => panic!("foreign detail"),
        Err(e) => {
            assert_eq!(e.status, BAD_REQUEST);
            assert_eq!(e.message, "Bookcase not found");
        },
    }
}

#[test]
fn rename_shelf_keeps_the_order() {
    let mut c = two_users();
    let (bookcase, top) = with_shelf(&mut c);
    c.create_shelf(ALICE, bookcase, "Middle".to_string(), id(201), 0).unwrap_or_else(|_| panic!("m"));
    c.create_shelf(ALICE, bookcase, "Bottom".to_string(), id(202), 0).unwrap_or_else(|_| panic!("b"));
    assert!(c.reorder_shelves(ALICE, bookcase, &vec![id(202), top, id(201)]).is_ok());
    assert!(c.update_shelf(ALICE, top, "Upper".to_string()).is_ok());
    let listed: Vec<String> = c.list_shelves(ALICE, bookcase).into_iter().map(|s| s.name).collect();
    assert_eq!(listed, vec!["Bottom", "Upper", "Middle"]);
}

#[test]
fn patch_in_place_keeps_the_order() {
    let mut c = two_users();
    let (_, shelf) = with_shelf(&mut c);
    let a = add_book(&mut c, shelf, 1, "A");
    let b = add_book(&mut c, shelf, 2, "B");
    let d = add_book(&mut c, shelf, 3, "C");
    assert!(c.reorder_books(ALICE, shelf, &vec![b, d, a]).is_ok());
    let mut patch = no_patch();
    patch.title = Some("D".to_string());
    let changed = c.update_book(ALICE, d, patch).unwrap_or_else(|_| panic!("patch"));
    assert_eq!((changed.shelf_id, changed.position), (shelf, 1));
    assert_eq!(book_titles(&c, shelf), vec!["B", "D", "A"]);
}
