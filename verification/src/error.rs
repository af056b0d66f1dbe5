//! The single error type of the codec.
use vstd::prelude::*;

verus! {

/// Error returned when canonical JSON conversion fails.
///
/// The error carries a free-form message; its view is that message.
#[derive(Debug, Clone)]
pub struct CanonicalError {
    message: String,
}

impl View for CanonicalError {
    type V = Seq<char>;

    closed spec fn view(&self) -> Seq<char> {
        self.message@
    }
}

impl CanonicalError {
    /// Makes an error that carries `message`.
    pub fn new(message: &str) -> (r: Self)
        ensures
            r@ == message@,
    {
        CanonicalError { message: message.to_owned() }
    }

    /// The message that the error carries.
    pub fn message(&self) -> (r: &str)
        ensures
            r@ == self@,
    {
        self.message.as_str()
    }

    /// The message as an owned string, as an error's display text would give it.
    pub fn to_string(&self) -> (r: String)
        ensures
            r@ == self@,
    {
        self.message.clone()
    }
}

/// The outcome of a fallible conversion over models: the value, or the
/// message of the error.
pub type Outcome<T> = Result<T, Seq<char>>;

/// The values of a row of outcomes where all are values, else the first
/// error in the row.
pub open spec fn collect<T>(outcomes: Seq<Outcome<T>>) -> Outcome<Seq<T>>
    decreases outcomes.len(),
{
    if outcomes.len() == 0 {
        Ok(Seq::empty())
    } else {
        match collect(outcomes.drop_last()) {
            Err(m) => Err(m),
            Ok(done) => match outcomes.last() {
                Err(m) => Err(m),
                Ok(v) => Ok(done.push(v)),
            },
        }
    }
}

/// Collecting one outcome more: the values so far and the next value, or the
/// first error.
pub proof fn lemma_collect_step<T>(outcomes: Seq<Outcome<T>>, i: int)
    requires
        0 <= i < outcomes.len(),
    ensures
        collect(outcomes.take(i + 1)) == match collect(outcomes.take(i)) {
            Err(m) => Err::<Seq<T>, Seq<char>>(m),
            Ok(done) => match outcomes[i] {
                Err(m) => Err(m),
                Ok(v) => Ok(done.push(v)),
            },
        },
{
    let next = outcomes.take(i + 1);
    assert(next.drop_last() =~= outcomes.take(i));
    assert(next.last() == outcomes[i]);
}

/// An error with no error before it is the error of the whole row.
pub proof fn lemma_collect_error<T>(outcomes: Seq<Outcome<T>>, i: int)
    requires
        0 <= i < outcomes.len(),
        collect(outcomes.take(i)) is Ok,
        outcomes[i] is Err,
    ensures
        collect(outcomes) == Err::<Seq<T>, Seq<char>>(outcomes[i]->Err_0),
    decreases outcomes.len(),
{
    if i == outcomes.len() - 1 {
        assert(outcomes.drop_last() =~= outcomes.take(i));
    } else {
        assert(outcomes.drop_last().take(i) =~= outcomes.take(i));
        lemma_collect_error(outcomes.drop_last(), i);
    }
}

} // verus!
