use vstd::prelude::*;

verus! {

/// A cursor over the tokens of a line that can look one token ahead.
pub struct TokenStream<T> {
    /// The tokens not yet taken, the next one last.
    stack: Vec<T>,
}

impl<T> View for TokenStream<T> {
    type V = Seq<T>;

    /// The tokens not yet taken, in source order.
    closed spec fn view(&self) -> Seq<T> {
        self.stack@.reverse()
    }
}

/// The first of a sequence of tokens, if any.
pub open spec fn first_token<T>(s: Seq<T>) -> Option<T> {
    if s.len() > 0 {
        Some(s[0])
    } else {
        None
    }
}

impl<T> TokenStream<T> {
    /// A stream over `tokens`, in order.
    pub fn new(tokens: Vec<T>) -> (res: Self)
        ensures
            res@ == tokens@,
    {
        let mut tokens = tokens;
        let ghost orig = tokens@;
        let mut stack: Vec<T> = Vec::new();
        while tokens.len() > 0
            invariant
                tokens@ + stack@.reverse() == orig,
            decreases tokens@.len(),
        {
            let ghost pre_t = tokens@;
            let ghost pre_s = stack@;
            let t = tokens.pop().unwrap();
            stack.push(t);
            assert(stack@.reverse() =~= seq![t] + pre_s.reverse());
            assert(pre_t =~= tokens@.push(t));
            assert(tokens@ + stack@.reverse() =~= pre_t + pre_s.reverse());
        }
        assert(stack@.reverse() =~= orig);
        TokenStream { stack }
    }

    /// The next token, without taking it.
    pub fn peek(&self) -> (res: Option<&T>)
        ensures
            res matches Some(t) ==> first_token(self@) == Some(*t),
            res is None ==> self@.len() == 0,
    {
        let n = self.stack.len();
        if n == 0 {
            None
        } else {
            Some(&self.stack[n - 1])
        }
    }

    /// The token after the next one, without taking anything.
    pub fn peek_second(&self) -> (res: Option<&T>)
        ensures
            res matches Some(t) ==> self@.len() > 1 && self@[1] == *t,
            res is None ==> self@.len() <= 1,
    {
        let n = self.stack.len();
        if n < 2 {
            None
        } else {
            Some(&self.stack[n - 2])
        }
    }

    /// Takes the next token.
    pub fn next(&mut self) -> (res: Option<T>)
        ensures
            res == first_token(old(self)@),
            final(self)@ == (if old(self)@.len() > 0 { old(self)@.drop_first() } else { old(self)@ }),
    {
        let ghost pre = self.stack@;
        let r = self.stack.pop();
        proof {
            if pre.len() > 0 {
                assert(self.stack@.reverse() =~= pre.reverse().drop_first());
            }
        }
        r
    }

    /// The tokens not yet taken, in order.
    pub fn into_vec(self) -> (res: Vec<T>)
        ensures
            res@ == self@,
    {
        let mut stack = self.stack;
        let ghost orig = stack@;
        let mut out: Vec<T> = Vec::new();
        while stack.len() > 0
            invariant
                out@ + stack@.reverse() == orig.reverse(),
            decreases stack@.len(),
        {
            let ghost pre_s = stack@;
            let ghost pre_o = out@;
            let t = stack.pop().unwrap();
            out.push(t);
            assert(pre_s.reverse() =~= seq![t] + stack@.reverse());
            assert(out@ + stack@.reverse() =~= pre_o + pre_s.reverse());
        }
        assert(out@ + stack@.reverse() =~= out@);
        out
    }

    /// Takes all remaining tokens and returns the last of them.
    pub fn last(&mut self) -> (res: Option<T>)
        ensures
            res == (if old(self)@.len() > 0 { Some(old(self)@.last()) } else { None::<T> }),
            final(self)@.len() == 0,
    {
        let ghost pre = self.stack@;
        let mut res: Option<T> = None;
        let n = self.stack.len();
        if n > 0 {
            let mut rest = Vec::new();
            std::mem::swap(&mut rest, &mut self.stack);
            let mut rest = rest;
            res = Some(rest.remove(0));
        }
        assert(self.stack@.reverse() =~= Seq::<T>::empty());
        res
    }
}

} // verus!
