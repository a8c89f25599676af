//! The log of messages shown to the user, oldest first.
use vstd::prelude::*;

verus! {

/// The messages logged so far, oldest first.
pub struct ErrorLog {
    errors: Vec<String>,
}

/// The texts of a list of strings.
pub open spec fn texts(strings: Seq<String>) -> Seq<Seq<char>> {
    strings.map_values(|s: String| s@)
}

/// The most recent message of a log, if any.
pub open spec fn last_of(log: Seq<Seq<char>>) -> Option<Seq<char>> {
    if log.len() == 0 {
        None
    } else {
        Some(log.last())
    }
}

impl View for ErrorLog {
    type V = Seq<Seq<char>>;

    closed spec fn view(&self) -> Seq<Seq<char>> {
        texts(self.errors@)
    }
}

impl ErrorLog {
    /// Adds a message at the end of the log.
    pub fn log(&mut self, error: String)
        ensures
            final(self)@ == old(self)@.push(error@),
    {
        self.errors.push(error);
        assert(texts(self.errors@) =~= texts(old(self).errors@).push(error@));
    }

    /// Every message logged, oldest first.
    pub fn all_errors(&self) -> (r: Vec<String>)
        ensures
            texts(r@) == self@,
    {
        let mut r: Vec<String> = Vec::new();
        let mut i: usize = 0;
        while i < self.errors.len()
            invariant
                i <= self.errors@.len(),
                texts(r@) == texts(self.errors@).take(i as int),
            decreases self.errors.len() - i,
        {
            let ghost old_r = r@;
            let e = self.errors[i].clone();
            r.push(e);
            assert(texts(r@) =~= texts(old_r).push(self.errors@[i as int]@));
            assert(texts(self.errors@).take(i + 1) =~= texts(self.errors@).take(i as int).push(
                self.errors@[i as int]@,
            ));
            i = i + 1;
        }
        assert(texts(self.errors@).take(i as int) =~= texts(self.errors@));
        r
    }

    /// The most recent message, or `None` if nothing was logged.
    pub fn last_error(&self) -> (r: Option<String>)
        ensures
            r matches Some(e) ==> last_of(self@) == Some(e@),
            r is None <==> last_of(self@) is None,
    {
        let n = self.errors.len();
        if n == 0 {
            None
        } else {
            Some(self.errors[n - 1].clone())
        }
    }

    /// Whether nothing was logged.
    pub fn is_empty(&self) -> (r: bool)
        ensures
            r == (self@.len() == 0),
    {
        self.errors.len() == 0
    }
}

impl Default for ErrorLog {
    /// An empty log.
    fn default() -> (r: Self)
        ensures
            r@ == Seq::<Seq<char>>::empty(),
    {
        let r = Self { errors: Vec::new() };
        assert(texts(r.errors@) =~= Seq::<Seq<char>>::empty());
        r
    }
}

/// The message just logged is the log's most recent one, and the log is no
/// longer empty.
pub proof fn law_logged_error_is_last(log: Seq<Seq<char>>, error: Seq<char>)
    ensures
        last_of(log.push(error)) == Some(error),
        log.push(error).len() != 0,
{
}

} // verus!
