use vstd::prelude::*;

verus! {

/// What the line search remembers across the files it visits.
#[derive(Clone, Copy, Debug, PartialEq, Eq, Structural)]
pub struct PrintingState {
    pub is_first_match: bool,
    pub is_recursive: bool,
}

impl PrintingState {
    pub fn new() -> (s: PrintingState)
        ensures
            s.is_first_match,
            !s.is_recursive,
    {
        PrintingState { is_first_match: true, is_recursive: false }
    }

    /// The search walks a directory: file names are printed from now on.
    pub fn enter_directory(&mut self)
        ensures
            final(self).is_recursive,
            final(self).is_first_match == old(self).is_first_match,
    {
        self.is_recursive = true;
    }

    /// Called once per file with matches: whether to print a blank line and
    /// whether to print the file's name before its matching lines. Only a
    /// recursive search names files, with a blank line between them.
    pub fn file_header(&mut self) -> (r: (bool, bool))
        ensures
            r.1 == old(self).is_recursive,
            r.0 == (old(self).is_recursive && !old(self).is_first_match),
            final(self).is_recursive == old(self).is_recursive,
            final(self).is_first_match == (old(self).is_first_match && !old(self).is_recursive),
    {
        if self.is_recursive {
            if self.is_first_match {
                self.is_first_match = false;
                (false, true)
            } else {
                (true, true)
            }
        } else {
            (false, false)
        }
    }
}

/// Number of decimal digits of `n`.
pub open spec fn decimal_width(n: nat) -> nat
    decreases n,
{
    if n < 10 {
        1
    } else {
        1 + decimal_width(n / 10)
    }
}

proof fn lemma_width_bound(n: nat)
    ensures
        n >= 1 ==> decimal_width(n) <= n,
        n >= 10 ==> decimal_width(n) >= 2,
    decreases n,
{
    if n >= 10 {
        lemma_width_bound(n / 10);
    }
}

/// Width of the line-number column: the digits of the largest number.
pub fn number_width(n: usize) -> (w: usize)
    ensures
        w == decimal_width(n as nat),
{
    let mut m = n;
    let mut w: usize = 1;
    proof {
        lemma_width_bound(n as nat);
    }
    while m >= 10
        invariant
            w + decimal_width(m as nat) == 1 + decimal_width(n as nat),
            n >= 1 ==> decimal_width(n as nat) <= n,
            m >= 10 ==> n >= 10,
        decreases m,
    {
        proof {
            lemma_width_bound(m as nat);
        }
        m = m / 10;
        w = w + 1;
    }
    w
}

} // verus!
