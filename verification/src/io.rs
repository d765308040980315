//! Output of the `print()` builtin.
use vstd::prelude::*;
use crate::metadata::AnnotatedObject;
use crate::exceptions::MontyException;
use crate::display::{py_str, str_text, push_char};

verus! {

/// The result of writing output.
pub type PrintResult = Result<(), MontyException>;

/// Custom output handling for the `print()` builtin.
///
/// Implement this trait and pass it in [`PrintWriter::Callback`] to capture or redirect
/// print output from sandboxed code. A verified implementation can say, through
/// [`writes`](Self::writes) and [`pushes`](Self::pushes), which results and following
/// states a call of [`stdout_write`](Self::stdout_write) or
/// [`stdout_push`](Self::stdout_push) can have; by default, any.
pub trait PrintWriterCallback: Sized {
    /// Whether `stdout_write` of `output`, called on this callback, can return `r` and
    /// leave the callback as `after`.
    open spec fn writes(&self, output: Seq<char>, r: PrintResult, after: Self) -> bool {
        true
    }

    /// Whether `stdout_push` of `end`, called on this callback, can return `r` and leave
    /// the callback as `after`.
    open spec fn pushes(&self, end: char, r: PrintResult, after: Self) -> bool {
        true
    }

    /// Called once for each formatted argument passed to `print()`, with that argument's
    /// text alone: separators and the final terminator come through
    /// [`stdout_push`](Self::stdout_push).
    fn stdout_write(&mut self, output: &str) -> (r: PrintResult)
        ensures
            old(self).writes(output@, r, *final(self)),
    ;

    /// Adds a single character, generally a separator or the terminator.
    fn stdout_push(&mut self, end: char) -> (r: PrintResult)
        ensures
            old(self).pushes(end, r, *final(self)),
    ;

    /// Whether this callback wants all positional arguments of one `print()` call at once,
    /// through [`stdout_write_structured`](Self::stdout_write_structured). Defaults to
    /// `false`.
    fn wants_structured(&self) -> (r: bool)
        default_ensures
            !r,
    {
        false
    }

    /// Receives all positional arguments of one `print()` call, each with its metadata,
    /// with the resolved `sep` and `end`.
    ///
    /// The default writes the pieces of [`structured_texts`] (the `str()` of each object,
    /// `sep` between them, `end` after them) through [`stdout_write`](Self::stdout_write),
    /// one call per piece in order, and stops at the first error, which it returns.
    fn stdout_write_structured(&mut self, objects: Vec<AnnotatedObject>, sep: &str, end: &str) -> (r: PrintResult)
        default_ensures
            ({
                let texts = structured_texts(objects@, sep@, end@);
                &&& r is Ok ==> exists|states: Seq<Self>|
                    #![trigger states.len()]
                    states.len() == texts.len() + 1 && states[0] == *old(self) && states.last()
                        == *final(self) && forall|i: int|
                        0 <= i < texts.len() ==> #[trigger] states[i].writes(texts[i], Ok(()), states[i + 1])
                &&& r is Err ==> exists|states: Seq<Self>|
                    #![trigger states.len()]
                    1 <= states.len() <= texts.len() && states[0] == *old(self) && (forall|i: int|
                        0 <= i < states.len() - 1 ==> #[trigger] states[i].writes(texts[i], Ok(()), states[i + 1]))
                        && states.last().writes(texts[states.len() - 1], r, *final(self))
            }),
    {
        let parts = structured_parts(&objects, sep, end);
        let ghost texts = structured_texts(objects@, sep@, end@);
        let ghost mut states: Seq<Self> = seq![*self];
        let mut k: usize = 0;
        while k < parts.len()
            invariant
                k <= parts@.len(),
                parts@.map_values(|p: String| p@) == texts,
                texts == structured_texts(objects@, sep@, end@),
                states.len() == k + 1,
                states[0] == *old(self),
                states[k as int] == *self,
                forall|i: int| 0 <= i < k ==> #[trigger] states[i].writes(texts[i], Ok(()), states[i + 1]),
            decreases parts@.len() - k,
        {
            let ghost before = *self;
            let w = self.stdout_write(parts[k].as_str());
            proof {
                assert(parts@.map_values(|p: String| p@)[k as int] == parts@[k as int]@);
                assert(before.writes(texts[k as int], w, *self));
            }
            if w.is_err() {
                proof {
                    assert(states.last() == before);
                    assert(states.len() >= 1 && states.len() <= texts.len());
                    assert(states.last().writes(texts[states.len() - 1], w, *self));
                }
                return w;
            }
            proof {
                assert(w->Ok_0 == ());
                assert(before.writes(texts[k as int], Ok(()), *self));
                let s2 = states.push(*self);
                assert forall|i: int| 0 <= i < k + 1 implies #[trigger] s2[i].writes(texts[i], Ok(()), s2[i + 1]) by {
                    if i < k {
                        assert(s2[i] == states[i] && s2[i + 1] == states[i + 1]);
                    } else {
                        assert(s2[i] == before);
                        assert(s2[i + 1] == *self);
                    }
                }
                states = s2;
            }
            k = k + 1;
        }
        proof {
            assert(states.len() == texts.len() + 1);
        }
        Ok(())
    }
}

/// The pieces that the default structured write hands to `stdout_write`, in order: the
/// `str()` of each object with `sep` between them, then `end`.
pub open spec fn structured_texts(objects: Seq<AnnotatedObject>, sep: Seq<char>, end: Seq<char>) -> Seq<Seq<char>>
    decreases objects.len(),
{
    if objects.len() == 0 {
        seq![end]
    } else if objects.len() == 1 {
        seq![str_text(objects[0].value), end]
    } else {
        structured_texts(objects.drop_last(), sep, end).drop_last() + seq![
            sep,
            str_text(objects.last().value),
            end,
        ]
    }
}

/// The pieces that the default structured write hands to `stdout_write`.
pub fn structured_parts(objects: &Vec<AnnotatedObject>, sep: &str, end: &str) -> (parts: Vec<String>)
    ensures
        parts@.map_values(|p: String| p@) == structured_texts(objects@, sep@, end@),
{
    let mut parts: Vec<String> = Vec::new();
    let mut k: usize = 0;
    while k < objects.len()
        invariant
            k <= objects@.len(),
            parts@.map_values(|p: String| p@) == structured_texts(objects@.subrange(0, k as int), sep@, end@).drop_last(),
        decreases objects@.len() - k,
    {
        let ghost before = parts@.map_values(|p: String| p@);
        let ghost parts0 = parts@;
        if k > 0 {
            parts.push(String::from_str(sep));
        }
        let text = py_str(&objects[k].value);
        let ghost t = text@;
        parts.push(text);
        proof {
            let q = objects@.subrange(0, k + 1);
            let prev = objects@.subrange(0, k as int);
            assert(q.drop_last() =~= prev);
            assert(q.last() == objects@[k as int]);
            if k == 0 {
                assert(q.len() == 1);
                assert(q[0] == objects@[0]);
                assert(structured_texts(q, sep@, end@) == seq![str_text(objects@[0].value), end@]);
                assert(prev =~= Seq::<AnnotatedObject>::empty());
                assert(structured_texts(prev, sep@, end@) == seq![end@]);
                assert(before.len() == 0);
                assert(parts0.len() == 0);
                assert(parts@.len() == 1 && parts@[0]@ == t);
                assert(parts@.map_values(|p: String| p@) =~= seq![t]);
                assert(structured_texts(q, sep@, end@).drop_last() =~= seq![t]);
            } else {
                assert(structured_texts(q, sep@, end@) == structured_texts(prev, sep@, end@).drop_last() + seq![sep@, t, end@]);
                assert(parts@.map_values(|p: String| p@) =~= before + seq![sep@, t]);
                assert(structured_texts(q, sep@, end@).drop_last() =~= structured_texts(prev, sep@, end@).drop_last() + seq![sep@, t]);
            }
        }
        k = k + 1;
    }
    parts.push(String::from_str(end));
    proof {
        assert(objects@.subrange(0, objects@.len() as int) =~= objects@);
        lemma_structured_texts_end(objects@, sep@, end@);
        assert(parts@.map_values(|p: String| p@) =~= structured_texts(objects@, sep@, end@));
    }
    parts
}

/// The structured pieces always end with `end`.
proof fn lemma_structured_texts_end(objects: Seq<AnnotatedObject>, sep: Seq<char>, end: Seq<char>)
    ensures
        structured_texts(objects, sep, end).len() >= 1,
        structured_texts(objects, sep, end).last() == end,
        structured_texts(objects, sep, end) == structured_texts(objects, sep, end).drop_last().push(end),
    decreases objects.len(),
{
    if objects.len() > 1 {
        lemma_structured_texts_end(objects.drop_last(), sep, end);
    }
    assert(structured_texts(objects, sep, end) =~= structured_texts(objects, sep, end).drop_last().push(end));
}

/// Output handler for the `print()` builtin.
///
/// - `Disabled` discards all output;
/// - `Stdout` writes to standard output;
/// - `Collect` accumulates output into a `String`;
/// - `Callback` delegates to a [`PrintWriterCallback`].
pub enum PrintWriter<'a, C: PrintWriterCallback> {
    /// Silently discard all output.
    Disabled,
    /// Write to standard output.
    Stdout,
    /// Collect all output into a string.
    Collect(&'a mut String),
    /// Delegate to a custom callback.
    Callback(&'a mut C),
}

impl<'a, C: PrintWriterCallback> PrintWriter<'a, C> {
    /// A writer that reborrows the same target, so that each step of an iterative
    /// execution can take a writer by value while all of them write to one target.
    pub fn reborrow(&mut self) -> (r: PrintWriter<'_, C>)
        ensures
            r is Disabled <==> *old(self) is Disabled,
            r is Stdout <==> *old(self) is Stdout,
            r is Collect <==> *old(self) is Collect,
            r is Callback <==> *old(self) is Callback,
            *old(self) matches PrintWriter::Collect(b) ==> (r matches PrintWriter::Collect(rb) && *rb == *b
                && (*final(self) matches PrintWriter::Collect(b2) && *b2 == *final(rb) && *final(b2) == *final(b))),
            *old(self) matches PrintWriter::Callback(c) ==> (r matches PrintWriter::Callback(rc) && *rc == *c
                && (*final(self) matches PrintWriter::Callback(c2) && *c2 == *final(rc) && *final(c2) == *final(c))),
    {
        match self {
            PrintWriter::Disabled => PrintWriter::Disabled,
            PrintWriter::Stdout => PrintWriter::Stdout,
            PrintWriter::Collect(buf) => PrintWriter::Collect(&mut **buf),
            PrintWriter::Callback(cb) => PrintWriter::Callback(&mut **cb),
        }
    }

    /// Writes one formatted argument of `print()` to a target other than standard output:
    /// nothing for `Disabled`, appended to the string for `Collect`, handed once to the
    /// callback's `stdout_write` for `Callback`, whose result it returns.
    pub fn stdout_write(&mut self, output: &str) -> (r: PrintResult)
        requires
            !(*old(self) is Stdout),
        ensures
            *old(self) is Disabled ==> r is Ok && *final(self) is Disabled,
            *old(self) matches PrintWriter::Collect(b) ==> r is Ok && (*final(self) matches PrintWriter::Collect(b2)
                && b2@ == b@ + output@ && *final(b2) == *final(b)),
            *old(self) matches PrintWriter::Callback(c) ==> (*final(self) matches PrintWriter::Callback(c2)
                && (*c).writes(output@, r, *c2) && *final(c2) == *final(c)),
    {
        match self {
            PrintWriter::Disabled => Ok(()),
            PrintWriter::Stdout => {
                assert(false);
                Ok(())
            },
            PrintWriter::Collect(buf) => {
                buf.append(output);
                Ok(())
            },
            PrintWriter::Callback(cb) => cb.stdout_write(output),
        }
    }

    /// Writes one character, a separator or a terminator of `print()`, to a target other
    /// than standard output, as [`stdout_write`](Self::stdout_write) does.
    pub fn stdout_push(&mut self, end: char) -> (r: PrintResult)
        requires
            !(*old(self) is Stdout),
        ensures
            *old(self) is Disabled ==> r is Ok && *final(self) is Disabled,
            *old(self) matches PrintWriter::Collect(b) ==> r is Ok && (*final(self) matches PrintWriter::Collect(b2)
                && b2@ == b@.push(end) && *final(b2) == *final(b)),
            *old(self) matches PrintWriter::Callback(c) ==> (*final(self) matches PrintWriter::Callback(c2)
                && (*c).pushes(end, r, *c2) && *final(c2) == *final(c)),
    {
        match self {
            PrintWriter::Disabled => Ok(()),
            PrintWriter::Stdout => {
                assert(false);
                Ok(())
            },
            PrintWriter::Collect(buf) => {
                push_char(buf, end);
                Ok(())
            },
            PrintWriter::Callback(cb) => cb.stdout_push(end),
        }
    }

    /// Whether this writer wants each `print()` call's arguments at once, through
    /// [`stdout_write_structured`](Self::stdout_write_structured): only a callback that
    /// asks for it does. For a callback, the answer is its own `wants_structured`, which the
    /// trait leaves to each implementation.
    pub fn wants_structured(&self) -> (r: bool)
        ensures
            !(*self is Callback) ==> !r,
            *self matches PrintWriter::Callback(c) ==> call_ensures(C::wants_structured, (&*c,), r),
    {
        match self {
            PrintWriter::Callback(cb) => cb.wants_structured(),
            _ => false,
        }
    }

    /// Hands all positional arguments of one `print()` call, with `sep` and `end`, to the
    /// callback, unchanged; the result is the callback's own, which its trait leaves
    /// unspecified.
    pub fn stdout_write_structured(&mut self, objects: Vec<AnnotatedObject>, sep: &str, end: &str) -> (r: PrintResult)
        requires
            *old(self) is Callback,
        ensures
            *old(self) matches PrintWriter::Callback(c) ==> (*final(self) matches PrintWriter::Callback(c2)
                && *final(c2) == *final(c)),
            *old(self) matches PrintWriter::Callback(c) ==> (*final(self) matches PrintWriter::Callback(c2)
                && exists|arg: &mut C|
                #![trigger call_ensures(C::stdout_write_structured, (arg, objects, sep, end), r)]
                mut_ref_current(arg) == *c && mut_ref_future(arg) == *c2 && call_ensures(
                    C::stdout_write_structured,
                    (arg, objects, sep, end),
                    r,
                )),
    {
        match self {
            PrintWriter::Callback(cb) => cb.stdout_write_structured(objects, sep, end),
            _ => {
                assert(false);
                Ok(())
            },
        }
    }
}

/// Which of the two print callbacks a host's arguments select.
#[derive(Debug, Clone, Copy, PartialEq, Eq, Structural)]
pub enum PrintRoute {
    /// No structured callback: output goes where `print_callback` says.
    Plain,
    /// The structured callback receives each `print()` call at once.
    Structured,
}

/// The result of choosing a print route.
pub type RouteResult = Result<PrintRoute, String>;

/// The message when both callbacks are given.
pub open spec fn both_callbacks_message() -> Seq<char> {
    "cannot specify both 'print_callback' and 'structured_print_callback'"@
}

/// Chooses the print route from which callbacks the host gave: both at once is an error
/// (a `ValueError` with [`both_callbacks_message`]), a structured callback alone selects
/// structured output, and anything else plain output.
pub fn choose_print_route(print_callback_given: bool, structured_given: bool) -> (r: RouteResult)
    ensures
        print_callback_given && structured_given ==> (r matches Err(m) && m@ == both_callbacks_message()),
        !print_callback_given && structured_given ==> r == RouteResult::Ok(PrintRoute::Structured),
        !structured_given ==> r == RouteResult::Ok(PrintRoute::Plain),
{
    if print_callback_given && structured_given {
        Err(String::from_str("cannot specify both 'print_callback' and 'structured_print_callback'"))
    } else if structured_given {
        Ok(PrintRoute::Structured)
    } else {
        Ok(PrintRoute::Plain)
    }
}

} // verus!
