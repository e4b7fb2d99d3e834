use vstd::prelude::*;

verus! {

/// One movie record: an id and three uninterpreted text fields.
pub struct Movie {
    pub id: u32,
    pub title: String,
    pub director: String,
    pub release_date: String,
}

/// The mathematical value of a record: its id and the characters of its fields.
pub struct MovieView {
    pub id: u32,
    pub title: Seq<char>,
    pub director: Seq<char>,
    pub release_date: Seq<char>,
}

impl View for Movie {
    type V = MovieView;

    open spec fn view(&self) -> MovieView {
        MovieView {
            id: self.id,
            title: self.title@,
            director: self.director@,
            release_date: self.release_date@,
        }
    }
}

/// The values of a sequence of records.
pub open spec fn views(s: Seq<Movie>) -> Seq<MovieView> {
    s.map_values(|m: Movie| m@)
}

/// The record that results from replacing each given field of `m`.
pub open spec fn with_fields(
    m: Movie,
    title: Option<String>,
    director: Option<String>,
    release_date: Option<String>,
) -> Movie {
    Movie {
        id: m.id,
        title: match title {
            Some(t) => t,
            None => m.title,
        },
        director: match director {
            Some(d) => d,
            None => m.director,
        },
        release_date: match release_date {
            Some(r) => r,
            None => m.release_date,
        },
    }
}

impl Movie {
    /// Builds a record from its four fields.
    pub fn new(id: u32, title: String, director: String, release_date: String) -> (r: Movie)
        ensures
            r == (Movie { id, title, director, release_date }),
    {
        Movie { id, title, director, release_date }
    }

    /// An equal copy of this record.
    pub fn duplicate(&self) -> (r: Movie)
        ensures
            r == *self,
    {
        Movie {
            id: self.id,
            title: self.title.clone(),
            director: self.director.clone(),
            release_date: self.release_date.clone(),
        }
    }

    /// This record with each given field replaced and the others kept.
    pub fn with_updates(
        &self,
        title: Option<String>,
        director: Option<String>,
        release_date: Option<String>,
    ) -> (r: Movie)
        ensures
            r == with_fields(*self, title, director, release_date),
    {
        Movie {
            id: self.id,
            title: match title {
                Some(t) => t,
                None => self.title.clone(),
            },
            director: match director {
                Some(d) => d,
                None => self.director.clone(),
            },
            release_date: match release_date {
                Some(r) => r,
                None => self.release_date.clone(),
            },
        }
    }
}

} // verus!
