use vstd::prelude::*;

use crate::codec::{decode, encode, forms_ok, snapshot_text, snapshot_text_as, written_as};
use crate::database::MovieError;
use crate::movie::{views, with_fields, Movie, MovieView};

verus! {

/// `i` is the first position of `s` that holds a record with `id`.
pub open spec fn is_first_match(s: Seq<Movie>, id: u32, i: int) -> bool {
    &&& 0 <= i < s.len()
    &&& s[i].id == id
    &&& forall|j: int| 0 <= j < i ==> s[j].id != id
}

/// Some record of `s` has `id`.
pub open spec fn has_id(s: Seq<Movie>, id: u32) -> bool {
    exists|i: int| 0 <= i < s.len() && s[i].id == id
}

/// No two records of `s` share an id.
pub open spec fn unique_ids(s: Seq<Movie>) -> bool {
    forall|i: int, j: int| 0 <= i < s.len() && 0 <= j < s.len() && i != j ==> s[i].id != s[j].id
}

/// The first position of `s` that holds a record with `id`, if any.
pub open spec fn first_match(s: Seq<Movie>, id: u32) -> Option<int> {
    if exists|i: int| is_first_match(s, id, i) {
        Some(choose|i: int| is_first_match(s, id, i))
    } else {
        None
    }
}

/// What a read of `id` yields on the records `s`.
pub open spec fn read_of(s: Seq<Movie>, id: u32) -> Option<Movie> {
    match first_match(s, id) {
        Some(i) => Some(s[i]),
        None => None,
    }
}

/// The records `s` after an update of `id` with the given fields.
pub open spec fn update_of(
    s: Seq<Movie>,
    id: u32,
    title: Option<String>,
    director: Option<String>,
    release_date: Option<String>,
) -> Seq<Movie> {
    match first_match(s, id) {
        Some(i) => s.update(i, with_fields(s[i], title, director, release_date)),
        None => s,
    }
}

/// The records `s` after a delete of `id`.
pub open spec fn delete_of(s: Seq<Movie>, id: u32) -> Seq<Movie> {
    match first_match(s, id) {
        Some(i) => s.remove(i),
        None => s,
    }
}

/// The first match is the only one.
proof fn lemma_first_match_is(s: Seq<Movie>, id: u32, i: int)
    requires
        is_first_match(s, id, i),
    ensures
        first_match(s, id) == Some(i),
{
    let k = choose|k: int| is_first_match(s, id, k);
    assert(is_first_match(s, id, k));
    if k < i {
        assert(s[k].id != id);
    } else if i < k {
        assert(s[i].id != id);
    }
}

/// Without any record of `id` there is no first match.
proof fn lemma_no_match(s: Seq<Movie>, id: u32)
    requires
        !has_id(s, id),
    ensures
        first_match(s, id) is None,
{
}

/// Where ids are unique, any record of `id` is its first match.
proof fn lemma_unique_match(s: Seq<Movie>, id: u32, i: int)
    requires
        unique_ids(s),
        0 <= i < s.len(),
        s[i].id == id,
    ensures
        first_match(s, id) == Some(i),
{
    assert forall|j: int| 0 <= j < i implies s[j].id != id by {
        assert(s[j].id != s[i].id);
    }
    lemma_first_match_is(s, id, i);
}

/// A record appended under an id that was absent is read back unchanged.
pub proof fn lemma_create_then_read(s: Seq<Movie>, m: Movie)
    requires
        !has_id(s, m.id),
    ensures
        read_of(s.push(m), m.id) == Some(m),
{
    let t = s.push(m);
    assert forall|j: int| 0 <= j < s.len() implies t[j].id != m.id by {
        assert(t[j] == s[j]);
    }
    lemma_first_match_is(t, m.id, s.len() as int);
}

/// Where ids are unique, a deleted id is no longer found.
pub proof fn lemma_delete_then_read(s: Seq<Movie>, id: u32)
    requires
        unique_ids(s),
    ensures
        read_of(delete_of(s, id), id) is None,
{
    if has_id(s, id) {
        let i = choose|i: int| 0 <= i < s.len() && s[i].id == id;
        lemma_unique_match(s, id, i);
        let t = s.remove(i);
        assert forall|j: int| 0 <= j < t.len() implies t[j].id != id by {
            if j < i {
                assert(t[j] == s[j]);
            } else {
                assert(t[j] == s[j + 1]);
            }
        }
        lemma_no_match(t, id);
    } else {
        lemma_no_match(s, id);
    }
}

/// An update that gives no field changes nothing, and finds `id` exactly
/// when a record has it.
pub proof fn lemma_update_without_fields(s: Seq<Movie>, id: u32)
    ensures
        update_of(s, id, None, None, None) == s,
        (first_match(s, id) is Some) == has_id(s, id),
{
    lemma_found_iff_present(s, id);
    if let Some(i) = first_match(s, id) {
        assert(with_fields(s[i], None, None, None) == s[i]);
        assert(s.update(i, s[i]) =~= s);
    }
}

/// An update of an absent id finds nothing and changes nothing.
pub proof fn lemma_update_missing(
    s: Seq<Movie>,
    id: u32,
    title: Option<String>,
    director: Option<String>,
    release_date: Option<String>,
)
    requires
        !has_id(s, id),
    ensures
        first_match(s, id) is None,
        update_of(s, id, title, director, release_date) == s,
{
    lemma_no_match(s, id);
}

/// A first match exists exactly when some record has the id.
pub proof fn lemma_found_iff_present(s: Seq<Movie>, id: u32)
    ensures
        (first_match(s, id) is Some) == has_id(s, id),
    decreases s.len(),
{
    if s.len() > 0 && has_id(s, id) {
        if s[0].id == id {
            lemma_first_match_is(s, id, 0);
        } else {
            let t = s.drop_first();
            let i = choose|i: int| 0 <= i < s.len() && s[i].id == id;
            assert(t[i - 1].id == id);
            lemma_found_iff_present(t, id);
            let k = first_match(t, id)->0;
            assert(is_first_match(t, id, k));
            assert forall|j: int| 0 <= j < k + 1 implies s[j].id != id by {
                if j > 0 {
                    assert(s[j] == t[j - 1]);
                }
            }
            lemma_first_match_is(s, id, k + 1);
        }
    } else if !has_id(s, id) {
        lemma_no_match(s, id);
    }
}

/// The records of the file-backed catalogue, held in memory in insertion order.
pub struct FileMovieManager {
    movies: Vec<Movie>,
}

impl FileMovieManager {
    /// The records, in order.
    pub closed spec fn records(&self) -> Seq<Movie> {
        self.movies@
    }

    /// An empty catalogue.
    pub fn new() -> (r: FileMovieManager)
        ensures
            r.records() == Seq::<Movie>::empty(),
    {
        FileMovieManager { movies: Vec::new() }
    }

    /// The position of the first record with `id`.
    fn position(&self, id: u32) -> (r: Option<usize>)
        ensures
            r matches Some(i) ==> first_match(self.records(), id) == Some(i as int),
            r is None ==> first_match(self.records(), id) is None,
            r matches Some(i) ==> i < self.movies@.len(),
    {
        let mut i: usize = 0;
        while i < self.movies.len()
            invariant
                i <= self.movies@.len(),
                forall|j: int| 0 <= j < i ==> self.movies@[j].id != id,
            decreases self.movies@.len() - i,
        {
            if self.movies[i].id == id {
                proof {
                    lemma_first_match_is(self.movies@, id, i as int);
                }
                return Some(i);
            }
            i += 1;
        }
        proof {
            lemma_no_match(self.movies@, id);
        }
        None
    }

    /// Appends a record; an id already present is not checked for.
    pub fn create_movie(&mut self, id: u32, title: String, director: String, release_date: String)
        ensures
            final(self).records() == old(self).records().push(
                Movie { id, title, director, release_date },
            ),
    {
        self.movies.push(Movie::new(id, title, director, release_date));
    }

    /// Appends decoded records, in their order, after those already held.
    pub fn load_movies(&mut self, movies: Vec<Movie>)
        ensures
            final(self).records() == old(self).records() + movies@,
    {
        let mut i: usize = 0;
        while i < movies.len()
            invariant
                i <= movies@.len(),
                self.movies@ == old(self).movies@ + movies@.subrange(0, i as int),
            decreases movies@.len() - i,
        {
            self.movies.push(movies[i].duplicate());
            proof {
                assert(movies@.subrange(0, i + 1) =~= movies@.subrange(0, i as int).push(
                    movies@[i as int],
                ));
            }
            i += 1;
        }
        proof {
            assert(movies@.subrange(0, movies@.len() as int) =~= movies@);
        }
    }

    /// The snapshot text of the records, in order, ready to be written out.
    pub fn save(&self) -> (r: String)
        ensures
            r@ == snapshot_text(views(self.records())),
    {
        encode(&self.movies)
    }

    /// Appends the records of a snapshot text after those already held; a
    /// text field may stand quoted or, without commas, quotes or line breaks,
    /// as it is. A text that is not a snapshot is refused with `Format`, and
    /// nothing changes.
    pub fn load(&mut self, text: &str) -> (r: Result<(), MovieError>)
        ensures
            r matches Err(e) ==> e == MovieError::Format && final(self).records() == old(
                self,
            ).records(),
            r is Ok ==> final(self).records().subrange(0, old(self).records().len() as int) == old(
                self,
            ).records() && written_as(
                views(
                    final(self).records().subrange(
                        old(self).records().len() as int,
                        final(self).records().len() as int,
                    ),
                ),
                text@,
            ),
            forall|s: Seq<MovieView>, fs: Seq<(bool, bool, bool)>|
                forms_ok(s, fs) && snapshot_text_as(s, fs) == text@ ==> (r is Ok && views(
                    final(self).records(),
                ) == views(old(self).records()) + s),
            forall|s: Seq<MovieView>|
                snapshot_text(s) == text@ ==> (r is Ok && views(final(self).records()) == views(
                    old(self).records(),
                ) + s),
    {
        match decode(text) {
            Ok(v) => {
                let ghost added = v@;
                self.load_movies(v);
                proof {
                    let n = old(self).records().len() as int;
                    let f = self.records();
                    assert(f.subrange(0, n) =~= old(self).records());
                    assert(f.subrange(n, f.len() as int) =~= added);
                    assert(views(f) =~= views(old(self).records()) + views(added));
                }
                Ok(())
            },
            Err(e) => Err(e),
        }
    }

    /// A copy of the first record with `id`, or `None`.
    pub fn read_movie(&self, id: u32) -> (r: Option<Movie>)
        ensures
            r == read_of(self.records(), id),
    {
        match self.position(id) {
            Some(i) => Some(self.movies[i].duplicate()),
            None => None,
        }
    }

    /// Replaces each given field of the first record with `id`; tells
    /// whether there was one.
    pub fn update_movie(
        &mut self,
        id: u32,
        title: Option<String>,
        director: Option<String>,
        release_date: Option<String>,
    ) -> (r: bool)
        ensures
            r == (first_match(old(self).records(), id) is Some),
            final(self).records() == update_of(old(self).records(), id, title, director, release_date),
    {
        match self.position(id) {
            Some(i) => {
                let m = self.movies[i].with_updates(title, director, release_date);
                self.movies.set(i, m);
                true
            },
            None => false,
        }
    }

    /// Removes the first record with `id`; tells whether there was one.
    pub fn delete_movie(&mut self, id: u32) -> (r: bool)
        ensures
            r == (first_match(old(self).records(), id) is Some),
            final(self).records() == delete_of(old(self).records(), id),
    {
        match self.position(id) {
            Some(i) => {
                self.movies.remove(i);
                true
            },
            None => false,
        }
    }

    /// The records, in order.
    pub fn list_movies(&self) -> (r: &Vec<Movie>)
        ensures
            r@ == self.records(),
    {
        &self.movies
    }
}

} // verus!
