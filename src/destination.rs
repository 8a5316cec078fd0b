//! Destination names that avoid existing files: the plain file name first,
//! then `<stem>_<n>.<ext>` for `n` from 1 up to a bound.
use vstd::prelude::*;
use vstd::string::*;
use crate::text::chars_of;
use crate::type_folder::{extension_dot, extension_of, lemma_last_dot, last_dot, stem_of};

verus! {

/// The largest index that a numbered variant may carry.
pub const MAX_DUPLICATE_INDEX: u32 = 9999;

/// Why no free destination name was found.
#[derive(Clone, Copy, Debug, PartialEq, Eq, Structural)]
pub enum DestinationError {
    /// Every numbered variant up to the bound was taken.
    Exhausted,
}

pub open spec fn digit_char(d: int) -> char {
    if d == 0 {
        '0'
    } else if d == 1 {
        '1'
    } else if d == 2 {
        '2'
    } else if d == 3 {
        '3'
    } else if d == 4 {
        '4'
    } else if d == 5 {
        '5'
    } else if d == 6 {
        '6'
    } else if d == 7 {
        '7'
    } else if d == 8 {
        '8'
    } else {
        '9'
    }
}

/// The decimal digits of `n`, without leading zeros.
pub open spec fn decimal(n: nat) -> Seq<char>
    decreases n,
{
    if n < 10 {
        seq![digit_char(n as int)]
    } else {
        decimal(n / 10).push(digit_char((n % 10) as int))
    }
}

/// The name tried at `index`: the file name itself at 0, else `_<index>`
/// inserted before the extension (or put at the end where there is none).
pub open spec fn candidate_name(name: Seq<char>, index: nat) -> Seq<char> {
    if index == 0 {
        name
    } else {
        let base = stem_of(name) + seq!['_'] + decimal(index);
        match extension_of(name) {
            Some(e) => base + seq!['.'] + e,
            None => base,
        }
    }
}

fn digit_str(d: u32) -> (r: &'static str)
    requires
        d < 10,
    ensures
        r@ == seq![digit_char(d as int)],
{
    proof {
        reveal_strlit("0");
        reveal_strlit("1");
        reveal_strlit("2");
        reveal_strlit("3");
        reveal_strlit("4");
        reveal_strlit("5");
        reveal_strlit("6");
        reveal_strlit("7");
        reveal_strlit("8");
        reveal_strlit("9");
    }
    let r = if d == 0 {
        "0"
    } else if d == 1 {
        "1"
    } else if d == 2 {
        "2"
    } else if d == 3 {
        "3"
    } else if d == 4 {
        "4"
    } else if d == 5 {
        "5"
    } else if d == 6 {
        "6"
    } else if d == 7 {
        "7"
    } else if d == 8 {
        "8"
    } else {
        "9"
    };
    assert(r@ =~= seq![digit_char(d as int)]);
    r
}

/// Appends the decimal digits of `n` to `s`.
pub fn push_decimal(s: &mut String, n: u32)
    ensures
        final(s)@ == old(s)@ + decimal(n as nat),
    decreases n,
{
    if n >= 10 {
        push_decimal(s, n / 10);
    }
    s.append(digit_str(n % 10));
    assert(s@ =~= old(s)@ + decimal(n as nat));
}

/// The name tried at `index` for `filename`.
pub fn numbered_name(filename: &str, index: u32) -> (r: String)
    ensures
        r@ == candidate_name(filename@, index as nat),
{
    if index == 0 {
        return String::from_str(filename);
    }
    let cs = chars_of(filename);
    let n = cs.len();
    proof {
        reveal_strlit("_");
        reveal_strlit(".");
    }
    match extension_dot(&cs) {
        Some(d) => {
            let mut r = String::from_str(filename.substring_char(0, d));
            r.append("_");
            push_decimal(&mut r, index);
            r.append(".");
            r.append(filename.substring_char(d + 1, n));
            assert(r@ =~= candidate_name(filename@, index as nat));
            r
        },
        None => {
            let mut r = String::from_str(filename);
            r.append("_");
            push_decimal(&mut r, index);
            assert(r@ =~= candidate_name(filename@, index as nat));
            r
        },
    }
}

/// A search for a free name in one destination folder. It tries the file
/// name first and moves to the next numbered variant each time the caller
/// finds the current one taken.
pub struct DestinationSearch {
    pub filename: String,
    pub index: u32,
}

impl DestinationSearch {
    /// A search that starts at the file name itself.
    pub fn new(filename: &str) -> (r: DestinationSearch)
        ensures
            r.filename@ == filename@,
            r.index == 0,
    {
        DestinationSearch { filename: String::from_str(filename), index: 0 }
    }

    /// The name to try now.
    pub fn candidate(&self) -> (r: String)
        ensures
            r@ == candidate_name(self.filename@, self.index as nat),
    {
        numbered_name(self.filename.as_str(), self.index)
    }

    /// Moves on to the next numbered variant, or fails once the bound is
    /// reached, leaving the search as it was.
    pub fn advance(&mut self) -> (r: Result<(), DestinationError>)
        ensures
            old(self).index < MAX_DUPLICATE_INDEX ==> r is Ok && final(self).index == old(
                self,
            ).index + 1 && final(self).filename@ == old(self).filename@,
            old(self).index >= MAX_DUPLICATE_INDEX ==> r == Err::<(), DestinationError>(
                DestinationError::Exhausted,
            ) && final(self).index == old(self).index && final(self).filename@ == old(
                self,
            ).filename@,
    {
        if self.index >= MAX_DUPLICATE_INDEX {
            Err(DestinationError::Exhausted)
        } else {
            self.index = self.index + 1;
            Ok(())
        }
    }
}

pub proof fn lemma_decimal_len(n: nat)
    ensures
        decimal(n).len() >= 1,
        n >= 10 ==> decimal(n).len() >= 2,
    decreases n,
{
    if n >= 10 {
        lemma_decimal_len(n / 10);
    }
}

proof fn lemma_digit_injective(x: int, y: int)
    requires
        0 <= x < 10,
        0 <= y < 10,
        digit_char(x) == digit_char(y),
    ensures
        x == y,
{
}

/// Different numbers have different decimal forms.
pub proof fn lemma_decimal_injective(a: nat, b: nat)
    requires
        decimal(a) == decimal(b),
    ensures
        a == b,
    decreases a,
{
    lemma_decimal_len(a);
    lemma_decimal_len(b);
    if a >= 10 && b >= 10 {
        assert(decimal(a).drop_last() =~= decimal(a / 10));
        assert(decimal(b).drop_last() =~= decimal(b / 10));
        lemma_decimal_injective(a / 10, b / 10);
        assert(decimal(a).last() == digit_char((a % 10) as int));
        assert(decimal(b).last() == digit_char((b % 10) as int));
        lemma_digit_injective((a % 10) as int, (b % 10) as int);
        assert(a == 10 * (a / 10) + a % 10) by (nonlinear_arith);
        assert(b == 10 * (b / 10) + b % 10) by (nonlinear_arith);
    } else if a < 10 && b < 10 {
        assert(decimal(a)[0] == digit_char(a as int));
        assert(decimal(b)[0] == digit_char(b as int));
        lemma_digit_injective(a as int, b as int);
    }
}

/// A name with an extension is its stem, a dot and the extension.
pub proof fn lemma_name_parts(name: Seq<char>)
    ensures
        extension_of(name) is Some ==> name == stem_of(name) + seq!['.'] + extension_of(
            name,
        )->Some_0,
        extension_of(name) is None ==> name == stem_of(name),
{
    lemma_last_dot(name);
    if extension_of(name) is Some {
        assert(name =~= stem_of(name) + seq!['.'] + extension_of(name)->Some_0);
    }
}

/// The numbered part of a numbered candidate.
proof fn lemma_candidate_middle(name: Seq<char>, i: nat)
    requires
        i > 0,
    ensures
        candidate_name(name, i).len() == name.len() + 1 + decimal(i).len(),
        candidate_name(name, i).subrange(
            stem_of(name).len() + 1 as int,
            stem_of(name).len() + 1 + decimal(i).len() as int,
        ) == decimal(i),
{
    lemma_name_parts(name);
    let c = candidate_name(name, i);
    let s: int = stem_of(name).len() + 1 as int;
    assert(c.subrange(s, s + decimal(i).len()) =~= decimal(i));
}

/// Each index gives its own name: the search never tries the same name
/// twice, so a name found taken is never offered again.
pub proof fn law_candidates_distinct(name: Seq<char>, i: nat, j: nat)
    requires
        i != j,
    ensures
        candidate_name(name, i) != candidate_name(name, j),
{
    lemma_decimal_len(i);
    lemma_decimal_len(j);
    if i > 0 && j > 0 {
        lemma_candidate_middle(name, i);
        lemma_candidate_middle(name, j);
        if candidate_name(name, i) == candidate_name(name, j) {
            lemma_decimal_injective(i, j);
        }
    } else if i > 0 {
        lemma_candidate_middle(name, i);
    } else {
        lemma_candidate_middle(name, j);
    }
}

} // verus!
