//! Paths into a configuration: dot-separated segments, each a key or,
//! where it reads as a `usize`, an index.
use vstd::prelude::*;

use crate::text::{chars_of, parse_usize, string_of, unsigned_text};

verus! {

/// One step of a path.
#[derive(Debug, Clone, PartialEq)]
pub enum AccessType {
    Key(String),
    Index(usize),
}

/// Model of one step.
pub enum AccessModel {
    Key(Seq<char>),
    Index(usize),
}

pub open spec fn access_model(a: AccessType) -> AccessModel {
    match a {
        AccessType::Key(k) => AccessModel::Key(k@),
        AccessType::Index(i) => AccessModel::Index(i),
    }
}

/// A parsed path.
#[derive(Debug, Clone, PartialEq)]
pub struct Accessor(Vec<AccessType>);

impl View for Accessor {
    type V = Seq<AccessModel>;

    closed spec fn view(&self) -> Seq<AccessModel> {
        self.0@.map_values(|a: AccessType| access_model(a))
    }
}

/// The error of reading a path; reading never fails, so nothing in the
/// library produces it.
#[derive(Debug, Clone, PartialEq)]
pub struct AccessorParseError;

/// The pieces of `s` between dots, as `str::split('.')` yields them.
pub open spec fn split_dots(s: Seq<char>) -> Seq<Seq<char>>
    decreases s.len(),
{
    if s.len() == 0 {
        seq![Seq::<char>::empty()]
    } else {
        let r = split_dots(s.drop_last());
        if s.last() == '.' {
            r.push(Seq::empty())
        } else {
            r.update(r.len() - 1, r.last().push(s.last()))
        }
    }
}

/// The step a piece reads as: an index when it reads as a `usize`, a key
/// otherwise.
pub open spec fn segment_model(p: Seq<char>) -> AccessModel {
    if unsigned_text(p) matches Some(n) && n <= usize::MAX {
        AccessModel::Index(unsigned_text(p)->0 as usize)
    } else {
        AccessModel::Key(p)
    }
}

/// The path a text reads as.
pub open spec fn accessor_of(s: Seq<char>) -> Seq<AccessModel> {
    split_dots(s).map_values(|p: Seq<char>| segment_model(p))
}

/// The text of pieces joined with dots.
pub open spec fn join_dots(ps: Seq<Seq<char>>) -> Seq<char>
    decreases ps.len(),
{
    if ps.len() == 0 {
        Seq::empty()
    } else if ps.len() == 1 {
        ps[0]
    } else {
        join_dots(ps.drop_last()) + seq!['.'] + ps.last()
    }
}

pub proof fn lemma_split_dots_nonempty(s: Seq<char>)
    ensures
        split_dots(s).len() >= 1,
    decreases s.len(),
{
    if s.len() > 0 {
        lemma_split_dots_nonempty(s.drop_last());
    }
}

/// Law: splitting at dots loses nothing; joining the pieces with dots
/// gives the text back, and no piece holds a dot.
pub proof fn lemma_split_join(s: Seq<char>)
    ensures
        join_dots(split_dots(s)) == s,
        forall|i: int, j: int|
            0 <= i < split_dots(s).len() && 0 <= j < split_dots(s)[i].len() ==> split_dots(s)[i][j]
                != '.',
    decreases s.len(),
{
    if s.len() > 0 {
        let p = s.drop_last();
        lemma_split_join(p);
        lemma_split_dots_nonempty(p);
        let r = split_dots(p);
        if s.last() == '.' {
            assert(r.push(Seq::empty()).drop_last() == r);
            assert(join_dots(r.push(Seq::empty())) == join_dots(r) + seq!['.'] + Seq::<char>::empty());
            assert(s =~= p + seq!['.']);
        } else {
            let q = r.update(r.len() - 1, r.last().push(s.last()));
            if r.len() == 1 {
                assert(q[0] =~= s);
            } else {
                assert(q.drop_last() == r.drop_last());
                assert(join_dots(q) == join_dots(r.drop_last()) + seq!['.'] + r.last().push(s.last()));
                assert(join_dots(r) == join_dots(r.drop_last()) + seq!['.'] + r.last());
                assert(s =~= p.push(s.last()));
                let a = join_dots(r.drop_last());
                assert((a + seq!['.'] + r.last()).push(s.last()) =~= a + seq!['.'] + r.last().push(
                    s.last(),
                ));
            }
            assert forall|i: int, j: int|
                0 <= i < q.len() && 0 <= j < q[i].len() implies q[i][j] != '.' by {
                if i == q.len() - 1 && j == q[i].len() - 1 {
                } else if i == q.len() - 1 {
                    assert(q[i][j] == r.last()[j]);
                }
            }
        }
    }
}

fn segment_of(piece: &Vec<char>) -> (a: AccessType)
    ensures
        access_model(a) == segment_model(piece@),
{
    match parse_usize(piece.as_slice()) {
        Some(u) => AccessType::Index(u),
        None => AccessType::Key(string_of(piece.as_slice())),
    }
}

/// Reads a path from text.
pub fn accessor_from_str(s: &str) -> (a: Accessor)
    ensures
        a@ == accessor_of(s@),
{
    let cs = chars_of(s);
    let mut pieces: Vec<AccessType> = Vec::new();
    let mut cur: Vec<char> = Vec::new();
    let mut i: usize = 0;
    proof {
        assert(cs@.take(0) =~= Seq::<char>::empty());
    }
    while i < cs.len()
        invariant
            i <= cs.len(),
            split_dots(cs@.take(i as int)) == split_dots(cs@.take(i as int)).take(
                pieces@.len() as int,
            ).push(cur@),
            split_dots(cs@.take(i as int)).len() == pieces@.len() + 1,
            forall|j: int|
                0 <= j < pieces@.len() ==> access_model(#[trigger] pieces@[j]) == segment_model(
                    split_dots(cs@.take(i as int))[j],
                ),
        decreases cs.len() - i,
    {
        let ghost before = split_dots(cs@.take(i as int));
        proof {
            assert(cs@.take(i + 1).drop_last() == cs@.take(i as int));
            assert(cs@.take(i + 1).last() == cs@[i as int]);
        }
        if cs[i] == '.' {
            let seg = segment_of(&cur);
            pieces.push(seg);
            cur = Vec::new();
            proof {
                let after = split_dots(cs@.take(i + 1));
                assert(after == before.push(Seq::empty()));
                assert(after =~= after.take(pieces@.len() as int).push(cur@));
            }
        } else {
            cur.push(cs[i]);
            proof {
                let after = split_dots(cs@.take(i + 1));
                assert(after =~= after.take(pieces@.len() as int).push(cur@));
            }
        }
        i = i + 1;
    }
    let seg = segment_of(&cur);
    pieces.push(seg);
    proof {
        assert(cs@.take(cs@.len() as int) == cs@);
    }
    let a = Accessor(pieces);
    proof {
        assert(a@ =~= accessor_of(s@));
    }
    a
}

/// Reads text as a path.
pub trait ParsableAccessor {
    /// The text the path is read from.
    spec fn accessor_text(&self) -> Seq<char>;

    fn parse(&self) -> (r: Result<Accessor, AccessorParseError>)
        ensures
            r matches Ok(a) && a@ == accessor_of(self.accessor_text()),
    ;
}

impl ParsableAccessor for &str {
    open spec fn accessor_text(&self) -> Seq<char> {
        (*self)@
    }

    fn parse(&self) -> (r: Result<Accessor, AccessorParseError>) {
        Ok(accessor_from_str(*self))
    }
}

impl ParsableAccessor for String {
    open spec fn accessor_text(&self) -> Seq<char> {
        self@
    }

    fn parse(&self) -> (r: Result<Accessor, AccessorParseError>) {
        let s: &str = self.as_str();
        Ok(accessor_from_str(s))
    }
}

impl Accessor {
    /// The steps of the path.
    pub open spec fn steps(&self) -> Seq<AccessModel> {
        self@
    }

    /// The first step.
    pub fn head(&self) -> (r: Option<&AccessType>)
        ensures
            match r {
                Some(a) => self@.len() > 0 && access_model(*a) == self@[0],
                None => self@.len() == 0,
            },
    {
        if self.0.len() > 0 {
            Some(&self.0[0])
        } else {
            None
        }
    }

    /// The step at position `i`.
    pub fn step(&self, i: usize) -> (r: &AccessType)
        requires
            i < self@.len(),
        ensures
            access_model(*r) == self@[i as int],
    {
        &self.0[i]
    }

    /// Number of steps.
    pub fn len(&self) -> (n: usize)
        ensures
            n == self@.len(),
    {
        self.0.len()
    }

    /// The path without its first step.
    pub fn pop(self) -> (r: Accessor)
        requires
            self@.len() > 0,
        ensures
            r@ == self@.drop_first(),
    {
        let mut v = self.0;
        let _ = v.remove(0);
        let r = Accessor(v);
        proof {
            assert(r@ =~= self@.drop_first());
        }
        r
    }
}

} // verus!
