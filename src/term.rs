use vstd::prelude::*;

verus! {

/// One node of the host runtime's tagged term representation.
///
/// An atom carries its name; a float carries its IEEE 754 bit pattern.
/// Integers beyond the 128-bit range are held at the nearest bound, which
/// lies outside the 64-bit range as well.
#[derive(Debug, PartialEq)]
pub enum Term {
    Binary(Vec<u8>),
    Atom(String),
    Integer(i128),
    Float(u64),
    Tuple(Vec<Term>),
    List(Vec<Term>),
    /// A list whose last cell does not end in the empty list.
    ImproperList(Vec<Term>, Box<Term>),
    /// A map term, as its key-value pairs in enumeration order.
    Mapping(Vec<(Term, Term)>),
    Pid,
    Port,
    Ref,
    Fun,
    Unknown,
}

/// The mathematical model of a `Term`.
pub enum TermModel {
    Binary(Seq<u8>),
    Atom(Seq<char>),
    Integer(int),
    Float(u64),
    Tuple(Seq<TermModel>),
    List(Seq<TermModel>),
    ImproperList(Seq<TermModel>, Box<TermModel>),
    Mapping(Seq<(TermModel, TermModel)>),
    Pid,
    Port,
    Ref,
    Fun,
    Unknown,
}

pub open spec fn term_model(t: Term) -> TermModel
    decreases t,
{
    match t {
        Term::Binary(b) => TermModel::Binary(b@),
        Term::Atom(name) => TermModel::Atom(name@),
        Term::Integer(i) => TermModel::Integer(i as int),
        Term::Float(bits) => TermModel::Float(bits),
        Term::Tuple(items) => TermModel::Tuple(term_models(items@)),
        Term::List(items) => TermModel::List(term_models(items@)),
        Term::ImproperList(items, tail) => TermModel::ImproperList(
            term_models(items@),
            Box::new(term_model(*tail)),
        ),
        Term::Mapping(pairs) => TermModel::Mapping(pair_models(pairs@)),
        Term::Pid => TermModel::Pid,
        Term::Port => TermModel::Port,
        Term::Ref => TermModel::Ref,
        Term::Fun => TermModel::Fun,
        Term::Unknown => TermModel::Unknown,
    }
}

pub open spec fn term_models(ts: Seq<Term>) -> Seq<TermModel>
    decreases ts,
{
    if ts.len() == 0 {
        Seq::empty()
    } else {
        term_models(ts.subrange(0, ts.len() - 1)).push(term_model(ts[ts.len() - 1]))
    }
}

pub open spec fn pair_models(ps: Seq<(Term, Term)>) -> Seq<(TermModel, TermModel)>
    decreases ps,
{
    if ps.len() == 0 {
        Seq::empty()
    } else {
        pair_models(ps.subrange(0, ps.len() - 1)).push(
            (term_model(ps[ps.len() - 1].0), term_model(ps[ps.len() - 1].1)),
        )
    }
}

impl View for Term {
    type V = TermModel;

    open spec fn view(&self) -> TermModel {
        term_model(*self)
    }
}

pub proof fn lemma_term_models_index(ts: Seq<Term>)
    ensures
        term_models(ts).len() == ts.len(),
        forall|i: int| 0 <= i < ts.len() ==> #[trigger] term_models(ts)[i] == term_model(ts[i]),
    decreases ts.len(),
{
    if ts.len() > 0 {
        lemma_term_models_index(ts.subrange(0, ts.len() - 1));
    }
}

pub proof fn lemma_pair_models_index(ps: Seq<(Term, Term)>)
    ensures
        pair_models(ps).len() == ps.len(),
        forall|i: int|
            0 <= i < ps.len() ==> #[trigger] pair_models(ps)[i] == (
                term_model(ps[i].0),
                term_model(ps[i].1),
            ),
    decreases ps.len(),
{
    if ps.len() > 0 {
        lemma_pair_models_index(ps.subrange(0, ps.len() - 1));
    }
}

} // verus!
