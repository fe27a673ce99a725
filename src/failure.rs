//! A type-erased failure: the message of a root failure and the context layered on
//! top of it while it travels up through callers.
use vstd::prelude::*;
use crate::errors::ExampleErrors;

verus! {

/// A failure's layers as text, the root failure first and the outermost context last.
pub type Layers = Seq<Seq<char>>;

/// What the failure displays: its outermost layer.
pub open spec fn message_of(v: Layers) -> Seq<char> {
    v.last()
}

/// The failure at the bottom of the chain.
pub open spec fn root_of(v: Layers) -> Seq<char> {
    v[0]
}

/// The layers after wrapping the failure in context `c`.
pub open spec fn with_context_of(v: Layers, c: Seq<char>) -> Layers {
    v.push(c)
}

/// Adding context to a failure keeps its root failure reachable, makes the context
/// the message shown at the top, and keeps the wrapped failure as the direct cause.
pub proof fn lemma_context_keeps_cause(v: Layers, c: Seq<char>)
    requires
        v.len() > 0,
    ensures
        root_of(with_context_of(v, c)) == root_of(v),
        message_of(with_context_of(v, c)) == c,
        with_context_of(v, c).drop_last() == v,
{
    assert(v.push(c).drop_last() =~= v);
}

/// A failure of any kind, with the context added while it was propagated.
pub struct Failure {
    layers: Vec<String>,
}

impl View for Failure {
    type V = Layers;

    closed spec fn view(&self) -> Layers {
        self.layers@.map_values(|s: String| s@)
    }
}

impl Failure {
    #[verifier::type_invariant]
    spec fn inv(&self) -> bool {
        self.layers.len() > 0
    }

    /// A failure that is only a message.
    pub fn msg(message: String) -> (r: Failure)
        ensures
            r@ == seq![message@],
    {
        let mut layers: Vec<String> = Vec::new();
        layers.push(message);
        let r = Failure { layers };
        assert(r@ =~= seq![r.layers@[0]@]);
        r
    }

    /// A failure standing for `e`, which becomes its root failure.
    pub fn from_error(e: &ExampleErrors) -> (r: Failure)
        ensures
            r@ == seq![e.message()],
    {
        Failure::msg(e.to_string())
    }

    /// Wraps the failure in one more layer of context.
    pub fn context(self, c: String) -> (r: Failure)
        ensures
            r@ == with_context_of(self@, c@),
    {
        proof {
            use_type_invariant(&self);
        }
        let mut layers = self.layers;
        layers.push(c);
        let r = Failure { layers };
        assert(r@ =~= with_context_of(self@, c@));
        r
    }

    /// The message the failure displays.
    pub fn to_string(&self) -> (r: String)
        ensures
            r@ == message_of(self@),
    {
        proof {
            use_type_invariant(self);
        }
        self.layers[self.layers.len() - 1].clone()
    }

    /// The message of the failure at the bottom of the chain.
    pub fn root_cause(&self) -> (r: String)
        ensures
            r@ == root_of(self@),
    {
        proof {
            use_type_invariant(self);
        }
        self.layers[0].clone()
    }

    /// The failure that this one wraps, when context was added to it.
    pub fn source(&self) -> (r: Option<Failure>)
        ensures
            self@.len() > 1 ==> (r matches Some(f) && f@ == self@.drop_last()),
            self@.len() <= 1 ==> r is None,
    {
        proof {
            use_type_invariant(self);
        }
        let n = self.layers.len();
        if n <= 1 {
            return None;
        }
        let mut layers: Vec<String> = Vec::new();
        let mut i: usize = 0;
        while i < n - 1
            invariant
                n == self.layers.len(),
                n > 1,
                i <= n - 1,
                layers@.len() == i,
                forall|k: int| 0 <= k < i ==> #[trigger] layers@[k]@ == self.layers@[k]@,
            decreases n - 1 - i,
        {
            layers.push(self.layers[i].clone());
            i = i + 1;
        }
        let f = Failure { layers };
        assert(f@ =~= self@.drop_last());
        Some(f)
    }
}

/// Adds context to the failure of a result; a success passes unchanged.
pub fn with_context<T>(r: Result<T, Failure>, c: String) -> (out: Result<T, Failure>)
    ensures
        r is Ok ==> out == r,
        r matches Err(f) ==> (out matches Err(g) && g@ == with_context_of(f@, c@)),
{
    match r {
        Ok(v) => Ok(v),
        Err(f) => Err(f.context(c)),
    }
}

/// Always fails, with the custom failure as its root.
pub fn make_error() -> (r: Result<(), Failure>)
    ensures
        r matches Err(f) && f@ == seq![ExampleErrors::Aerror.message()],
{
    Err(Failure::from_error(&ExampleErrors::Aerror))
}

/// Calls `make_error` and hands its failure on unchanged.
pub fn invoke_and_appear_error() -> (r: Result<(), Failure>)
    ensures
        r matches Err(f) && f@ == seq![ExampleErrors::Aerror.message()],
{
    make_error()?;
    Ok(())
}

/// Calls `make_error` and hands its failure on with a note of where it passed.
pub fn invoke_and_take_more_meaasge() -> (r: Result<(), Failure>)
    ensures
        r matches Err(f) && f@ == seq![ExampleErrors::Aerror.message(), "invoke_and_take_more_meaasge failed"@],
{
    with_context(make_error(), String::from_str("invoke_and_take_more_meaasge failed"))?;
    Ok(())
}

} // verus!
