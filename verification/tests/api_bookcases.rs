use nokkonenshelfapi::auth::CurrentUser;
use nokkonenshelfapi::catalog::Catalog;
use nokkonenshelfapi::error::BAD_REQUEST;
use nokkonenshelfapi::ids::Id;

const USER: Id = 0x1111_0000_0000_4000_8000_0000_0000_0001;

fn app() -> Catalog {
    let mut c = Catalog::new();
    c.add_user(USER, "testuser".to_string(), "test@example.com".to_string(), None)
        .unwrap_or_else(|_| panic!("user"));
    c
}

fn fresh(n: u128) -> Id {
    0xabcd_0000_0000_4000_8000_0000_0000_0000 + n
}

#[test]
fn list_bookcases_empty() {
    let app = app();
    let list = app.list_bookcases(USER);
    assert!(list.is_empty());
}

#[test]
fn create_bookcase() {
    let mut app = app();
    let created = app
        .create_bookcase(USER, "My Bookcase".to_string(), fresh(1), 0)
        .unwrap_or_else(|_| panic!("create"));
    assert_eq!(created.name, "My Bookcase");
    assert_eq!(created.id, fresh(1));
    assert_eq!(created.position, 0);
}

#[test]
fn list_bookcases_returns_created() {
    let mut app = app();
    assert!(app.create_bookcase(USER, "First Shelf".to_string(), fresh(1), 0).is_ok());
    let arr = app.list_bookcases(USER);
    assert_eq!(arr.len(), 1);
    assert_eq!(arr[0].name, "First Shelf");
}

#[test]
fn update_bookcase() {
    let mut app = app();
    let created = app
        .create_bookcase(USER, "Old Name".to_string(), fresh(1), 0)
        .unwrap_or_else(|_| panic!("create"));
    let patched = app
        .update_bookcase(USER, created.id, "New Name".to_string())
        .unwrap_or_else(|_| panic!("update"));
    assert_eq!(patched.name, "New Name");
    assert_eq!(patched.id, created.id);
}

#[test]
fn delete_bookcase() {
    let mut app = app();
    let created = app
        .create_bookcase(USER, "To Delete".to_string(), fresh(1), 0)
        .unwrap_or_else(|_| panic!("create"));
    app.delete_bookcase(USER, created.id);
    assert!(app.list_bookcases(USER).is_empty());
}

#[test]
fn reorder_bookcases() {
    let mut app = app();
    let a = app.create_bookcase(USER, "A".to_string(), fresh(1), 0).unwrap_or_else(|_| panic!("a"));
    let b = app.create_bookcase(USER, "B".to_string(), fresh(2), 0).unwrap_or_else(|_| panic!("b"));
    assert!(app.reorder_bookcases(USER, &vec![b.id, a.id]).is_ok());
    let arr = app.list_bookcases(USER);
    assert_eq!(arr[0].id, b.id);
    assert_eq!(arr[1].id, a.id);
}

#[test]
fn reorder_fails_with_wrong_ids() {
    let mut app = app();
    assert!(app.create_bookcase(USER, "A".to_string(), fresh(1), 0).is_ok());
    let wrong_id: Id = fresh(99);
    match app.reorder_bookcases(USER, &vec![wrong_id]) {
        Ok(()) => panic!("accepted a wrong id"),
        Err(e) => assert_eq!(e.status, BAD_REQUEST),
    }
}

#[test]
fn get_bookcase_detail() {
    let mut app = app();
    let bookcase = app
        .create_bookcase(USER, "Detail Bookcase".to_string(), fresh(1), 0)
        .unwrap_or_else(|_| panic!("create"));
    let shelf = app
        .create_shelf(USER, bookcase.id, "Test Shelf".to_string(), fresh(2), 0)
        .unwrap_or_else(|_| panic!("shelf"));
    assert!(app
        .create_book(
            USER,
            shelf.id,
            "Test Book".to_string(),
            "Test Author".to_string(),
            Some("#8B4513".to_string()),
            None,
            fresh(3),
            0,
        )
        .is_ok());
    let detail = app.bookcase_detail(USER, bookcase.id).unwrap_or_else(|_| panic!("detail"));
    assert_eq!(detail.bookcase.name, "Detail Bookcase");
    assert_eq!(detail.shelves.len(), 1);
    assert_eq!(detail.shelves[0].shelf.name, "Test Shelf");
    assert_eq!(detail.shelves[0].books.len(), 1);
    assert_eq!(detail.shelves[0].books[0].title, "Test Book");
    assert_eq!(detail.shelves[0].books[0].author, "Test Author");
}

#[test]
fn unauthenticated_request() {
    assert!(CurrentUser::from_cookie(None).is_none());
}
