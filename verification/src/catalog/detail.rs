use vstd::prelude::*;

use crate::arrange::arrange;
use crate::catalog::Catalog;
use crate::catalog::books::book_position_list;
use crate::catalog::shelves::shelf_position_list;
use crate::error::{AppError, BAD_REQUEST};
use crate::ids::Id;
use crate::rows::{Book, Bookcase, Row, Shelf};

verus! {

/// A shelf with its books, ordered by position.
pub struct ShelfDetail {
    pub shelf: Shelf,
    pub books: Vec<Book>,
}

/// A bookcase with its shelves and their books, each ordered by position.
pub struct BookcaseDetail {
    pub bookcase: Bookcase,
    pub shelves: Vec<ShelfDetail>,
}

impl Catalog {
    /// The bookcase `id` of `user` with its shelves in order and, on each, its
    /// books in order. Refused (400, "Bookcase not found") when the bookcase is not
    /// theirs.
    pub fn bookcase_detail(&self, user: Id, id: Id) -> (r: Result<BookcaseDetail, AppError>)
        ensures
            r is Ok <==> self.owns_bookcase(user, id),
            match r {
                Ok(d) => {
                    &&& exists|i: int|
                        0 <= i < self.bookcases@.len() && self.bookcases@[i].id == id
                            && self.bookcases@[i].user_id == user && (forall|j: int|
                            0 <= j < i ==> !(self.bookcases@[j].id == id && self.bookcases@[j].user_id
                                == user)) && d.bookcase == self.bookcases@[i]
                    &&& d.shelves@.len() == self.shelf_listing(id).len()
                    &&& forall|t: int|
                        0 <= t < d.shelves@.len() ==> (#[trigger] d.shelves@[t]).shelf == self.shelf_listing(
                            id,
                        )[t] && d.shelves@[t].books@ == self.book_listing(self.shelf_listing(id)[t].id)
                },
                Err(e) => {
                    &&& e.status == BAD_REQUEST
                    &&& e.message@ == "Bookcase not found"@
                },
            },
    {
        let i: usize = match self.find_owned_bookcase(user, id) {
            Some(i) => i,
            None => {
                return Err(AppError::bad_request("Bookcase not found".to_owned()));
            },
        };
        let bookcase = self.bookcases[i].duplicate();
        let rows = self.collect_bookcase_shelves(id);
        let keys = shelf_position_list(&rows);
        let listed = arrange(&rows, &keys);
        let mut shelves: Vec<ShelfDetail> = Vec::new();
        let mut t: usize = 0;
        while t < listed.len()
            invariant
                t <= listed.len(),
                listed@ == self.shelf_listing(id),
                shelves@.len() == t,
                forall|u: int|
                    0 <= u < t ==> (#[trigger] shelves@[u]).shelf == listed@[u] && shelves@[u].books@
                        == self.book_listing(listed@[u].id),
            decreases listed.len() - t,
        {
            let shelf = listed[t].duplicate();
            let on = self.collect_shelf_books(shelf.id);
            let on_keys = book_position_list(&on);
            let books = arrange(&on, &on_keys);
            shelves.push(ShelfDetail { shelf, books });
            t = t + 1;
        }
        Ok(BookcaseDetail { bookcase, shelves })
    }
}

} // verus!
