use vstd::prelude::*;

use crate::convert::IntoText;

verus! {

/// A validation error with an optional context chain.
///
/// Errors can be nested to produce human-readable traces like:
/// ```text
/// ==> File config.yaml
/// ==> At Repo(url='https://...')
/// ==> At key: hooks
/// =====> Missing required key: id
/// ```
#[derive(Debug)]
pub struct ValidationError {
    message: String,
    ctx: Option<Box<ValidationError>>,
}

/// The messages of the chain, outermost first; the last one is the leaf.
pub closed spec fn trace_of(e: ValidationError) -> Seq<Seq<char>>
    decreases e,
{
    match e.ctx {
        Some(inner) => seq![e.message@] + trace_of(*inner),
        None => seq![e.message@],
    }
}

impl View for ValidationError {
    type V = Seq<Seq<char>>;

    open spec fn view(&self) -> Seq<Seq<char>> {
        trace_of(*self)
    }
}

/// The context lines `==> c` of a trace, each followed by a newline.
pub open spec fn contexts_text(cs: Seq<Seq<char>>) -> Seq<char>
    decreases cs.len(),
{
    if cs.len() == 0 {
        Seq::empty()
    } else {
        contexts_text(cs.drop_last()) + "==> "@ + cs.last() + "\n"@
    }
}

/// The human-readable rendering of a trace.
pub open spec fn render_trace(t: Seq<Seq<char>>) -> Seq<char> {
    "\n"@ + contexts_text(t.drop_last()) + "=====> "@ + t.last()
}

/// Every error has at least its own message.
pub proof fn lemma_trace_nonempty(e: ValidationError)
    ensures
        e@.len() >= 1,
{
    reveal_with_fuel(trace_of, 1);
}

impl ValidationError {
    /// An error whose whole trace is `message`.
    pub(crate) fn leaf(message: String) -> (r: ValidationError)
        ensures
            r@ == seq![message@],
    {
        let r = ValidationError { message, ctx: None };
        proof {
            reveal_with_fuel(trace_of, 1);
        }
        r
    }

    /// This error wrapped in the context `ctx`.
    pub(crate) fn wrap(self, ctx: String) -> (r: ValidationError)
        ensures
            r@ == seq![ctx@] + self@,
    {
        let r = ValidationError { message: ctx, ctx: Some(Box::new(self)) };
        proof {
            reveal_with_fuel(trace_of, 1);
        }
        r
    }

    /// An error with the single message `message`.
    pub fn new<M: IntoText>(message: M) -> (r: ValidationError)
        ensures
            r@ == seq![message.text_spec()],
    {
        let m: String = message.into_text();
        ValidationError::leaf(m)
    }

    /// Returns the error message at this level of the context chain.
    pub fn message(&self) -> (r: &str)
        ensures
            r@ == self@[0],
    {
        proof {
            reveal_with_fuel(trace_of, 1);
        }
        self.message.as_str()
    }

    /// Wrap this error with additional context, producing a new error
    /// where `ctx` points to `self`.
    pub fn with_context<C: IntoText>(self, ctx: C) -> (r: ValidationError)
        ensures
            r@ == seq![ctx.text_spec()] + self@,
    {
        let c: String = ctx.into_text();
        self.wrap(c)
    }

    /// The messages of the chain, outermost first; the last is the leaf.
    pub fn trace_parts(&self) -> (r: Vec<&str>)
        ensures
            r@.len() == self@.len(),
            forall|i: int| 0 <= i < r@.len() ==> (#[trigger] r@[i])@ == self@[i],
    {
        let mut parts: Vec<&str> = Vec::new();
        let mut current = self;
        let ghost done: Seq<Seq<char>> = Seq::empty();
        loop
            invariant
                parts@.len() == done.len(),
                forall|i: int| 0 <= i < parts@.len() ==> (#[trigger] parts@[i])@ == done[i],
                self@ == done + current@,
            decreases current@.len(),
        {
            proof {
                reveal_with_fuel(trace_of, 1);
            }
            parts.push(current.message.as_str());
            proof {
                done = done.push(current.message@);
            }
            match &current.ctx {
                Some(inner) => {
                    proof {
                        assert(current@ == seq![current.message@] + inner@);
                        assert(self@ =~= done + inner@);
                    }
                    current = inner;
                },
                None => {
                    assert(self@ =~= done);
                    return parts;
                },
            }
        }
    }

    /// The human-readable rendering: a leading newline, one `==> ctx` line
    /// per context, then `=====> message` for the leaf.
    pub fn to_string(&self) -> (r: String)
        ensures
            r@ == render_trace(self@),
    {
        let parts = self.trace_parts();
        proof {
            lemma_trace_nonempty(*self);
        }
        let n = parts.len();
        let mut out = String::new();
        out.append("\n");
        let mut i: usize = 0;
        while i + 1 < n
            invariant
                0 <= i < n,
                n == parts@.len(),
                n == self@.len(),
                forall|k: int| 0 <= k < n ==> (#[trigger] parts@[k])@ == self@[k],
                out@ == "\n"@ + contexts_text(self@.take(i as int)),
            decreases n - i,
        {
            out.append("==> ");
            out.append(parts[i]);
            out.append("\n");
            proof {
                assert(self@.take(i as int + 1).drop_last() =~= self@.take(i as int));
            }
            i = i + 1;
            assert(out@ =~= "\n"@ + contexts_text(self@.take(i as int)));
        }
        out.append("=====> ");
        out.append(parts[n - 1]);
        assert(self@.drop_last() =~= self@.take(i as int));
        assert(out@ =~= render_trace(self@));
        out
    }
}

/// Run a closure, and if it returns a `ValidationError`, wrap it with context.
///
/// The context is provided as a closure to avoid allocating a `String`
/// on the success path.
pub fn validate_context<T, F, C>(ctx: C, f: F) -> (r: Result<T, ValidationError>) where
    C: FnOnce() -> String,
    F: FnOnce() -> Result<T, ValidationError>,

    requires
        f.requires(()),
        ctx.requires(()),
    ensures
        match r {
            Ok(t) => f.ensures((), Ok(t)),
            Err(e) => exists|e0: ValidationError, s: String|
                f.ensures((), Err(e0)) && ctx.ensures((), s) && e@ == seq![s@] + e0@,
        },
{
    match f() {
        Ok(t) => Ok(t),
        Err(e) => {
            let c = ctx();
            Err(e.wrap(c))
        },
    }
}

} // verus!
