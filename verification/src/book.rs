//! The posts of a profile: for each author the posts in the order in which
//! they were written.
//!
//! In memory and in the record the authors stand in ascending order, so that
//! one book has one encoding.

use crate::address::{precedes, Address, Rank};
use crate::friends::{
    arrange, arrangeable, ascending, lemma_arrange_unique, lemma_ascending_distinct,
    lemma_insert_ascending,
};
use crate::post::{
    lemma_take_posts, post_views, posts_bytes, posts_fit, put_posts, read_posts,
    take_posts, with_comment, Post, PostView,
};
use crate::wire::{
    behind, lemma_append_assoc, lemma_take_address, lemma_take_u32, put_address, put_u32,
    read_address, read_u32, take_address, take_u32, u32_bytes,
};
use vstd::prelude::*;

verus! {

/// The posts of one author.
pub type Shelf = (Seq<u8>, Seq<PostView>);

/// The posts of each author.
pub type Shelves = Map<Seq<u8>, Seq<PostView>>;

/// The posts of `author`; none where the book does not name the author.
pub open spec fn posts_of(book: Shelves, author: Seq<u8>) -> Seq<PostView> {
    if book.contains_key(author) {
        book[author]
    } else {
        Seq::<PostView>::empty()
    }
}

/// The book as it is with one more post of `author`.
pub open spec fn with_post(book: Shelves, author: Seq<u8>, post: PostView) -> Shelves {
    book.insert(author, posts_of(book, author).push(post))
}

/// The book holds a post of `author` at place `index`.
pub open spec fn has_post(book: Shelves, author: Seq<u8>, index: int) -> bool {
    book.contains_key(author) && 0 <= index < book[author].len()
}

/// The book as it is with one more comment under the post of `author` at
/// place `index`.
pub open spec fn with_comment_at(
    book: Shelves,
    author: Seq<u8>,
    index: int,
    comment_author: Seq<u8>,
    content: Seq<char>,
) -> Shelves {
    book.insert(
        author,
        book[author].update(index, with_comment(book[author][index], comment_author, content)),
    )
}

/// The shelves of a book in the order in which a record lists them.
pub open spec fn shelves_of(book: Shelves) -> Seq<Shelf> {
    arrange(book.dom()).map_values(|author: Seq<u8>| (author, book[author]))
}

/// The book that a list of shelves stands for: where an author comes twice,
/// the later shelf counts.
pub open spec fn gather(shelves: Seq<Shelf>) -> Shelves
    decreases shelves.len(),
{
    if shelves.len() == 0 {
        Map::<Seq<u8>, Seq<PostView>>::empty()
    } else {
        gather(shelves.drop_last()).insert(shelves.last().0, shelves.last().1)
    }
}

/// The shelf can be written.
pub open spec fn shelf_fits(shelf: Shelf) -> bool {
    shelf.0.len() == 32 && posts_fit(shelf.1)
}

/// The bytes of a shelf: the author, then the posts.
pub open spec fn shelf_bytes(shelf: Shelf) -> Seq<u8> {
    shelf.0 + posts_bytes(shelf.1)
}

/// Reads a shelf.
pub open spec fn take_shelf(s: Seq<u8>) -> Option<(Shelf, Seq<u8>)> {
    match take_address(s) {
        Some((author, after_author)) => match take_posts(after_author) {
            Some((posts, rest)) => Some(((author, posts), rest)),
            None => None,
        },
        None => None,
    }
}

/// The bytes of the shelves, one after another.
pub open spec fn shelf_run_bytes(shelves: Seq<Shelf>) -> Seq<u8>
    decreases shelves.len(),
{
    if shelves.len() == 0 {
        Seq::<u8>::empty()
    } else {
        shelf_bytes(shelves[0]) + shelf_run_bytes(shelves.drop_first())
    }
}

/// Reads `n` shelves.
pub open spec fn take_shelf_run(s: Seq<u8>, n: nat) -> Option<(Seq<Shelf>, Seq<u8>)>
    decreases n,
{
    if n == 0 {
        Some((Seq::<Shelf>::empty(), s))
    } else {
        match take_shelf(s) {
            Some((shelf, rest)) => behind(seq![shelf], take_shelf_run(rest, (n - 1) as nat)),
            None => None,
        }
    }
}

/// The book can be written: its authors are finitely many and can be put in
/// order, and every shelf can be written.
pub open spec fn book_fits(book: Shelves) -> bool {
    &&& book.dom().finite()
    &&& arrangeable(book.dom())
    &&& book.dom().len() <= u32::MAX
    &&& forall|author: Seq<u8>| #[trigger]
        book.contains_key(author) ==> shelf_fits((author, book[author]))
}

/// The bytes of a book: the number of its authors, then their shelves, the
/// authors ascending.
pub open spec fn book_bytes(book: Shelves) -> Seq<u8> {
    u32_bytes(book.dom().len() as u32) + shelf_run_bytes(shelves_of(book))
}

/// Reads a book.
pub open spec fn take_book(s: Seq<u8>) -> Option<(Shelves, Seq<u8>)> {
    match take_u32(s) {
        Some((n, after_count)) => match take_shelf_run(after_count, n as nat) {
            Some((shelves, rest)) => Some((gather(shelves), rest)),
            None => None,
        },
        None => None,
    }
}

/// The authors of a list of shelves.
pub open spec fn authors_of(shelves: Seq<Shelf>) -> Seq<Seq<u8>> {
    shelves.map_values(|shelf: Shelf| shelf.0)
}

/// The book of a list of shelves names the authors of the list, and where no
/// author comes twice it gives each author the posts of their shelf.
pub proof fn lemma_gather(shelves: Seq<Shelf>)
    ensures
        gather(shelves).dom() == authors_of(shelves).to_set(),
        authors_of(shelves).no_duplicates() ==> forall|i: int|
            0 <= i < shelves.len() ==> gather(shelves)[(#[trigger] shelves[i]).0] == shelves[i].1,
    decreases shelves.len(),
{
    let authors = authors_of(shelves);
    if shelves.len() == 0 {
        assert(gather(shelves).dom() =~= authors.to_set());
    } else {
        let front = shelves.drop_last();
        let last = shelves.last();
        lemma_gather(front);
        assert(authors_of(front) =~= authors.drop_last());
        assert forall|k: Seq<u8>| gather(shelves).dom().contains(k) <==> authors.to_set().contains(
            k,
        ) by {
            if authors.to_set().contains(k) {
                let i = choose|i: int| 0 <= i < authors.len() && authors[i] == k;
                if i < front.len() {
                    assert(authors_of(front)[i] == k);
                }
            }
            if authors_of(front).to_set().contains(k) {
                let i = choose|i: int| 0 <= i < front.len() && authors_of(front)[i] == k;
                assert(authors[i] == k);
            }
            if k == last.0 {
                assert(authors[shelves.len() - 1] == k);
            }
        }
        assert(gather(shelves).dom() =~= authors.to_set());
        if authors.no_duplicates() {
            assert(authors_of(front).no_duplicates());
            assert forall|i: int| 0 <= i < shelves.len() implies gather(shelves)[(
                #[trigger] shelves[i]).0] == shelves[i].1 by {
                if i < front.len() {
                    assert(front[i] == shelves[i]);
                    assert(authors[i] == shelves[i].0);
                    assert(authors[shelves.len() - 1] == last.0);
                }
            }
        }
    }
}

/// A shelf that was written is read back, with what follows it.
pub proof fn lemma_take_shelf(shelf: Shelf, rest: Seq<u8>)
    requires
        shelf_fits(shelf),
    ensures
        take_shelf(shelf_bytes(shelf) + rest) == Some((shelf, rest)),
{
    lemma_append_assoc(shelf.0, posts_bytes(shelf.1), rest);
    lemma_take_address(shelf.0, posts_bytes(shelf.1) + rest);
    lemma_take_posts(shelf.1, rest);
}

/// Shelves that were written one after another are read back.
pub proof fn lemma_take_shelf_run(shelves: Seq<Shelf>, rest: Seq<u8>)
    requires
        forall|i: int| 0 <= i < shelves.len() ==> shelf_fits(#[trigger] shelves[i]),
    ensures
        take_shelf_run(shelf_run_bytes(shelves) + rest, shelves.len()) == Some((shelves, rest)),
    decreases shelves.len(),
{
    if shelves.len() == 0 {
        assert(shelf_run_bytes(shelves) + rest =~= rest);
        assert(shelves =~= Seq::<Shelf>::empty());
    } else {
        let tail = shelves.drop_first();
        assert forall|i: int| 0 <= i < tail.len() implies shelf_fits(#[trigger] tail[i]) by {
            assert(tail[i] == shelves[i + 1]);
        }
        lemma_append_assoc(shelf_bytes(shelves[0]), shelf_run_bytes(tail), rest);
        lemma_take_shelf(shelves[0], shelf_run_bytes(tail) + rest);
        lemma_take_shelf_run(tail, rest);
        assert(seq![shelves[0]] + tail =~= shelves);
    }
}

/// The shelves of a book in record order stand for that book.
pub proof fn lemma_gather_shelves(book: Shelves)
    requires
        book.dom().finite(),
        arrangeable(book.dom()),
    ensures
        gather(shelves_of(book)) == book,
        shelves_of(book).len() == book.dom().len(),
{
    let keys = arrange(book.dom());
    let shelves = shelves_of(book);
    lemma_ascending_distinct(keys);
    lemma_gather(shelves);
    assert(authors_of(shelves) =~= keys);
    assert forall|k: Seq<u8>| book.contains_key(k) implies gather(shelves)[k] == book[k] by {
        let i = choose|i: int| 0 <= i < keys.len() && keys[i] == k;
        assert(shelves[i].0 == k);
    }
    assert(gather(shelves) =~= book);
}

/// A book that was written is read back, with what follows it.
pub proof fn lemma_take_book(book: Shelves, rest: Seq<u8>)
    requires
        book_fits(book),
    ensures
        take_book(book_bytes(book) + rest) == Some((book, rest)),
{
    let shelves = shelves_of(book);
    let keys = arrange(book.dom());
    lemma_gather_shelves(book);
    assert forall|i: int| 0 <= i < shelves.len() implies shelf_fits(#[trigger] shelves[i]) by {
        assert(keys.to_set().contains(keys[i]));
        assert(book.contains_key(keys[i]));
    }
    lemma_take_u32(book.dom().len() as u32, shelf_run_bytes(shelves) + rest);
    lemma_take_shelf_run(shelves, rest);
    assert(book_bytes(book) + rest =~= u32_bytes(book.dom().len() as u32) + (shelf_run_bytes(
        shelves,
    ) + rest));
}

/// The posts of one author, as the book keeps them.
#[derive(Clone, Debug)]
struct Row {
    author: Address,
    posts: Vec<Post>,
}

/// The posts of a profile, by author.
#[derive(Clone, Debug)]
pub struct PostBook {
    rows: Vec<Row>,
}

/// The authors of the rows.
spec fn row_keys(rows: Seq<Row>) -> Seq<Seq<u8>> {
    rows.map_values(|row: Row| row.author@)
}

/// The rows as shelves.
spec fn row_shelves(rows: Seq<Row>) -> Seq<Shelf> {
    rows.map_values(|row: Row| (row.author@, post_views(row.posts@)))
}

/// The place of `author` among the keys.
spec fn place_of(keys: Seq<Seq<u8>>, author: Seq<u8>) -> int {
    choose|i: int| 0 <= i < keys.len() && keys[i] == author
}

/// The book that the rows stand for.
spec fn row_book(rows: Seq<Row>) -> Shelves {
    Map::new(
        |author: Seq<u8>| row_keys(rows).contains(author),
        |author: Seq<u8>| post_views(rows[place_of(row_keys(rows), author)].posts@),
    )
}

/// Rows with ascending authors stand for the book that names those authors
/// and gives each the posts of their row; in record order its shelves are the
/// rows.
proof fn lemma_row_book(rows: Seq<Row>)
    requires
        ascending(row_keys(rows)),
    ensures
        row_book(rows).dom() == row_keys(rows).to_set(),
        row_book(rows).dom().finite(),
        row_book(rows).dom().len() == rows.len(),
        arrangeable(row_book(rows).dom()),
        forall|i: int|
            0 <= i < rows.len() ==> row_book(rows)[(#[trigger] rows[i]).author@] == post_views(
                rows[i].posts@,
            ),
        shelves_of(row_book(rows)) == row_shelves(rows),
{
    let keys = row_keys(rows);
    let book = row_book(rows);
    lemma_ascending_distinct(keys);
    assert(book.dom() =~= keys.to_set());
    lemma_arrange_unique(keys);
    assert forall|i: int| 0 <= i < rows.len() implies book[(#[trigger] rows[i]).author@]
        == post_views(rows[i].posts@) by {
        assert(keys[i] == rows[i].author@);
        let j = place_of(keys, rows[i].author@);
        assert(keys[j] == keys[i]);
    }
    assert(shelves_of(book) =~= row_shelves(rows)) by {
        assert forall|i: int| 0 <= i < rows.len() implies shelves_of(book)[i] == row_shelves(
            rows,
        )[i] by {
            assert(keys[i] == rows[i].author@);
        }
    }
}

impl View for PostBook {
    type V = Shelves;

    closed spec fn view(&self) -> Shelves {
        row_book(self.rows@)
    }
}

impl PostBook {
    /// The authors stand in ascending order.
    pub closed spec fn wf(&self) -> bool {
        ascending(row_keys(self.rows@))
    }

    /// A well-formed book names finitely many authors, each by 32 bytes, and
    /// they can be put in order.
    pub proof fn lemma_wf(&self)
        requires
            self.wf(),
        ensures
            self@.dom().finite(),
            self@.dom().len() <= usize::MAX,
            arrangeable(self@.dom()),
            forall|author: Seq<u8>| self@.contains_key(author) ==> author.len() == 32,
    {
        let keys = row_keys(self.rows@);
        lemma_row_book(self.rows@);
        assert(keys.len() == self.rows.len());
        assert forall|author: Seq<u8>| self@.contains_key(author) implies author.len() == 32 by {
            let i = choose|i: int| 0 <= i < keys.len() && keys[i] == author;
            assert(keys[i] == self.rows@[i].author@);
        }
    }

    /// The book without any post.
    pub fn new() -> (book: PostBook)
        ensures
            book.wf(),
            book@ == Map::<Seq<u8>, Seq<PostView>>::empty(),
    {
        let book = PostBook { rows: Vec::new() };
        assert(book@ =~= Map::<Seq<u8>, Seq<PostView>>::empty());
        book
    }

    /// The number of authors.
    pub fn len(&self) -> (count: usize)
        requires
            self.wf(),
        ensures
            count == self@.dom().len(),
    {
        proof {
            lemma_row_book(self.rows@);
        }
        self.rows.len()
    }

    /// The place of `author` among the rows: the number of authors that
    /// precede it, and whether it stands there.
    fn locate(&self, author: &Address) -> (found: (usize, bool))
        requires
            self.wf(),
        ensures
            found.0 <= self.rows@.len(),
            forall|i: int| 0 <= i < found.0 ==> precedes(#[trigger] row_keys(self.rows@)[i], author@),
            found.1 ==> found.0 < self.rows@.len() && self.rows@[found.0 as int].author@ == author@,
            !found.1 && found.0 < self.rows@.len() ==> precedes(
                author@,
                row_keys(self.rows@)[found.0 as int],
            ),
            found.1 == self@.contains_key(author@),
    {
        let mut i: usize = 0;
        let mut found = false;
        while i < self.rows.len()
            invariant_except_break
                !found,
            invariant
                0 <= i <= self.rows@.len(),
                forall|j: int| 0 <= j < i ==> precedes(#[trigger] row_keys(self.rows@)[j], author@),
            ensures
                0 <= i <= self.rows@.len(),
                forall|j: int| 0 <= j < i ==> precedes(#[trigger] row_keys(self.rows@)[j], author@),
                found ==> i < self.rows@.len() && self.rows@[i as int].author@ == author@,
                !found && i < self.rows@.len() ==> precedes(
                    author@,
                    row_keys(self.rows@)[i as int],
                ),
            decreases self.rows@.len() - i,
        {
            match self.rows[i].author.rank(author) {
                Rank::Before => {},
                Rank::Same => {
                    found = true;
                    break ;
                },
                Rank::After => {
                    break ;
                },
            }
            i += 1;
        }
        proof {
            let keys = row_keys(self.rows@);
            if found {
                assert(keys[i as int] == author@);
            } else {
                lemma_insert_ascending(keys, i as int, author@);
            }
        }
        (i, found)
    }

    /// The posts of `author`, if the book names the author.
    pub fn get(&self, author: &Address) -> (posts: Option<&Vec<Post>>)
        requires
            self.wf(),
        ensures
            match posts {
                Some(posts) => self@.contains_key(author@) && post_views(posts@) == self@[author@],
                None => !self@.contains_key(author@),
            },
    {
        let (at, found) = self.locate(author);
        if found {
            proof {
                lemma_row_book(self.rows@);
            }
            Some(&self.rows[at].posts)
        } else {
            None
        }
    }

    /// Gives `author` the posts `posts`, in place of those that the book had
    /// for the author.
    pub fn put(&mut self, author: Address, posts: Vec<Post>)
        requires
            old(self).wf(),
        ensures
            final(self).wf(),
            final(self)@ == old(self)@.insert(author@, post_views(posts@)),
    {
        let (at, found) = self.locate(&author);
        let ghost before = self.rows@;
        proof {
            lemma_row_book(before);
        }
        if found {
            self.rows[at].posts = posts;
            proof {
                assert(row_keys(self.rows@) =~= row_keys(before));
            }
        } else {
            proof {
                lemma_insert_ascending(row_keys(before), at as int, author@);
            }
            self.rows.insert(at, Row { author, posts });
            proof {
                assert(row_keys(self.rows@) =~= row_keys(before).insert(at as int, author@));
            }
        }
        proof {
            let after = self.rows@;
            lemma_row_book(after);
            let target = row_book(before).insert(author@, post_views(posts@));
            assert(row_book(after).dom() =~= target.dom());
            assert forall|k: Seq<u8>| row_book(after).contains_key(k) implies row_book(after)[k]
                == target[k] by {
                let i = choose|i: int| 0 <= i < after.len() && row_keys(after)[i] == k;
                assert(after[i].author@ == k);
                if found {
                    if i != at {
                        assert(before[i] == after[i]);
                        lemma_ascending_distinct(row_keys(before));
                        assert(row_keys(before)[i] == k);
                        assert(row_keys(before)[at as int] == author@);
                    }
                } else {
                    if i < at {
                        assert(before[i] == after[i]);
                        assert(row_keys(before)[i] == k);
                    } else if i > at {
                        assert(before[i - 1] == after[i]);
                        assert(row_keys(before)[i - 1] == k);
                    }
                }
            }
            assert(row_book(after) =~= target);
        }
    }

    /// Puts `post` behind the posts of `author`.
    pub fn add_post(&mut self, author: Address, post: Post)
        requires
            old(self).wf(),
        ensures
            final(self).wf(),
            final(self)@ == with_post(old(self)@, author@, post@),
    {
        let (at, found) = self.locate(&author);
        let ghost before = self.rows@;
        proof {
            lemma_row_book(before);
        }
        if found {
            self.rows[at].posts.push(post);
            proof {
                assert(row_keys(self.rows@) =~= row_keys(before));
                assert(post_views(self.rows@[at as int].posts@) =~= post_views(
                    before[at as int].posts@,
                ).push(post@));
            }
        } else {
            proof {
                lemma_insert_ascending(row_keys(before), at as int, author@);
            }
            let mut posts: Vec<Post> = Vec::new();
            posts.push(post);
            proof {
                assert(post_views(posts@) =~= Seq::<PostView>::empty().push(post@));
            }
            self.rows.insert(at, Row { author, posts });
            proof {
                assert(row_keys(self.rows@) =~= row_keys(before).insert(at as int, author@));
            }
        }
        proof {
            let after = self.rows@;
            lemma_row_book(after);
            let target = with_post(row_book(before), author@, post@);
            assert(row_book(after).dom() =~= target.dom());
            assert forall|k: Seq<u8>| row_book(after).contains_key(k) implies row_book(after)[k]
                == target[k] by {
                let i = choose|i: int| 0 <= i < after.len() && row_keys(after)[i] == k;
                assert(after[i].author@ == k);
                if found {
                    if i != at {
                        assert(before[i] == after[i]);
                        lemma_ascending_distinct(row_keys(before));
                        assert(row_keys(before)[i] == k);
                        assert(row_keys(before)[at as int] == author@);
                    }
                } else {
                    if i < at {
                        assert(before[i] == after[i]);
                        assert(row_keys(before)[i] == k);
                    } else if i > at {
                        assert(before[i - 1] == after[i]);
                        assert(row_keys(before)[i - 1] == k);
                    }
                }
            }
            assert(row_book(after) =~= target);
        }
    }

    /// Puts a comment under the post of `post_author` at place `post_index`.
    /// Returns whether there is such a post; without one the book stays as it
    /// is.
    pub fn add_comment(
        &mut self,
        post_author: &Address,
        post_index: usize,
        comment_author: Address,
        content: String,
    ) -> (found: bool)
        requires
            old(self).wf(),
        ensures
            final(self).wf(),
            found == has_post(old(self)@, post_author@, post_index as int),
            found ==> final(self)@ == with_comment_at(
                old(self)@,
                post_author@,
                post_index as int,
                comment_author@,
                content@,
            ),
            !found ==> final(self)@ == old(self)@,
    {
        let (at, found) = self.locate(post_author);
        let ghost before = self.rows@;
        proof {
            lemma_row_book(before);
        }
        if !found {
            return false;
        }
        if post_index >= self.rows[at].posts.len() {
            return false;
        }
        self.rows[at].posts[post_index].add_comment(comment_author, content);
        proof {
            let after = self.rows@;
            assert(row_keys(after) =~= row_keys(before));
            lemma_row_book(after);
            let target = with_comment_at(
                row_book(before),
                post_author@,
                post_index as int,
                comment_author@,
                content@,
            );
            assert(post_views(after[at as int].posts@) =~= post_views(
                before[at as int].posts@,
            ).update(
                post_index as int,
                with_comment(before[at as int].posts@[post_index as int]@, comment_author@, content@),
            ));
            assert(row_book(after).dom() =~= target.dom());
            assert forall|k: Seq<u8>| row_book(after).contains_key(k) implies row_book(after)[k]
                == target[k] by {
                let i = choose|i: int| 0 <= i < after.len() && row_keys(after)[i] == k;
                assert(after[i].author@ == k);
                if i != at {
                    assert(before[i] == after[i]);
                    lemma_ascending_distinct(row_keys(before));
                    assert(row_keys(before)[i] == k);
                    assert(row_keys(before)[at as int] == post_author@);
                }
            }
            assert(row_book(after) =~= target);
        }
        true
    }

    /// Appends the book, if it can be written; else `out` stays as it is.
    pub fn put_into(&self, out: &mut Vec<u8>) -> (done: bool)
        requires
            self.wf(),
        ensures
            done == book_fits(self@),
            done ==> final(out)@ == old(out)@ + book_bytes(self@),
            !done ==> final(out)@ == old(out)@,
    {
        let start = out.len();
        let ghost shelves = row_shelves(self.rows@);
        let ghost keys = row_keys(self.rows@);
        proof {
            lemma_row_book(self.rows@);
            self.lemma_wf();
        }
        if self.rows.len() > u32::MAX as usize {
            return false;
        }
        put_u32(out, self.rows.len() as u32);
        let mut i: usize = 0;
        proof {
            assert(shelves.skip(0) =~= shelves);
            assert(out@ + shelf_run_bytes(shelves) =~= old(out)@ + book_bytes(self@));
            assert(out@.subrange(0, start as int) =~= old(out)@);
        }
        while i < self.rows.len()
            invariant
                0 <= i <= self.rows@.len(),
                self.wf(),
                shelves == row_shelves(self.rows@),
                keys == row_keys(self.rows@),
                forall|j: int| 0 <= j < i ==> shelf_fits(#[trigger] shelves[j]),
                out@ + shelf_run_bytes(shelves.skip(i as int)) == old(out)@ + book_bytes(self@),
                start == old(out)@.len(),
                start <= out@.len(),
                out@.subrange(0, start as int) == old(out)@,
            decreases self.rows@.len() - i,
        {
            let ghost before = out@;
            let ghost left = shelves.skip(i as int);
            put_address(out, &self.rows[i].author);
            let done = put_posts(out, &self.rows[i].posts);
            if !done {
                proof {
                    lemma_row_book(self.rows@);
                    assert(!shelf_fits(shelves[i as int]));
                    assert(keys[i as int] == self.rows@[i as int].author@);
                    assert(keys.to_set().contains(keys[i as int]));
                    assert(self@.contains_key(keys[i as int]));
                    assert(out@.subrange(0, start as int) =~= before.subrange(0, start as int));
                }
                out.truncate(start);
                return false;
            }
            assert(out@.subrange(0, start as int) =~= before.subrange(0, start as int));
            proof {
                assert(left[0] == shelves[i as int]);
                assert(left.drop_first() =~= shelves.skip(i + 1));
                assert(out@ =~= before + shelf_bytes(shelves[i as int]));
                assert(out@ + shelf_run_bytes(shelves.skip(i + 1)) =~= before + shelf_run_bytes(
                    left,
                ));
            }
            i += 1;
        }
        proof {
            assert(shelves.skip(i as int) =~= Seq::<Shelf>::empty());
            assert(out@ =~= out@ + shelf_run_bytes(shelves.skip(i as int)));
            lemma_row_book(self.rows@);
            assert forall|author: Seq<u8>| #[trigger]
                self@.contains_key(author) implies shelf_fits((author, self@[author])) by {
                let j = choose|j: int| 0 <= j < keys.len() && keys[j] == author;
                assert(shelves[j] == (author, self@[author]));
            }
        }
        true
    }

    /// Reads a book at `pos`.
    pub fn read(data: &[u8], pos: usize) -> (r: Option<(PostBook, usize)>)
        ensures
            pos > data@.len() ==> r is None,
            pos <= data@.len() ==> (match r {
                Some((book, next)) => book.wf() && pos <= next <= data@.len() && take_book(
                    data@.skip(pos as int),
                ) == Some((book@, data@.skip(next as int))),
                None => take_book(data@.skip(pos as int)) is None,
            }),
    {
        if pos > data.len() {
            return None;
        }
        let (n, start) = match read_u32(data, pos) {
            Some(found) => found,
            None => {
                return None;
            },
        };
        let mut book = PostBook::new();
        let mut at: usize = start;
        let mut i: u32 = 0;
        let ghost mut seen: Seq<Shelf> = Seq::empty();
        proof {
            let whole = take_shelf_run(data@.skip(start as int), n as nat);
            assert(behind(seen, whole) == whole) by {
                if whole is Some {
                    assert(seen + whole.unwrap().0 =~= whole.unwrap().0);
                }
            }
        }
        while i < n
            invariant
                0 <= i <= n,
                pos <= start <= at <= data@.len(),
                take_u32(data@.skip(pos as int)) == Some((n, data@.skip(start as int))),
                book.wf(),
                book@ == gather(seen),
                take_shelf_run(data@.skip(start as int), n as nat) == behind(
                    seen,
                    take_shelf_run(data@.skip(at as int), (n - i) as nat),
                ),
            decreases n - i,
        {
            let (author, after_author) = match read_address(data, at) {
                Some(found) => found,
                None => {
                    assert(take_shelf_run(data@.skip(at as int), (n - i) as nat) is None);
                    return None;
                },
            };
            let (posts, next) = match read_posts(data, after_author) {
                Some(found) => found,
                None => {
                    assert(take_shelf_run(data@.skip(at as int), (n - i) as nat) is None);
                    return None;
                },
            };
            proof {
                let shelf = (author@, post_views(posts@));
                let later = take_shelf_run(data@.skip(next as int), (n - i - 1) as nat);
                if later is Some {
                    assert(seen + (seq![shelf] + later.unwrap().0) =~= seen.push(shelf)
                        + later.unwrap().0);
                }
                assert(seen.push(shelf).drop_last() =~= seen);
                seen = seen.push(shelf);
            }
            book.put(author, posts);
            at = next;
            i += 1;
        }
        proof {
            assert(seen + Seq::<Shelf>::empty() =~= seen);
        }
        Some((book, at))
    }
}

} // verus!
