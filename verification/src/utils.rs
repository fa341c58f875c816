//! Small utilities: the bidirectional exclusive range used to walk the open
//! interval between two squares, and the parser that turns a textual move
//! like `e2 e4` into board coordinates.

use vstd::prelude::*;

verus! {

/// The numbers strictly between `a` and `b`, walking from `a` toward `b` in
/// whichever direction `b` lies; empty when the bounds are equal or adjacent.
pub open spec fn birange_seq(a: int, b: int) -> Seq<usize>
    decreases (if a >= b {
        a - b
    } else {
        b - a
    }),
{
    if a == b {
        Seq::empty()
    } else if a < b {
        if a + 1 == b {
            Seq::empty()
        } else {
            seq![(a + 1) as usize] + birange_seq(a + 1, b)
        }
    } else {
        if a == b + 1 {
            Seq::empty()
        } else {
            seq![(a - 1) as usize] + birange_seq(a - 1, b)
        }
    }
}

/// A restartable walk over the open integer interval between two bounds, in
/// the direction from the first toward the second: both bounds excluded,
/// empty when they are equal or adjacent.
pub struct BiRange {
    start: usize,
    end: usize,
}

impl BiRange {
    /// The numbers this range has yet to yield, in order.
    pub closed spec fn remaining(self) -> Seq<usize> {
        birange_seq(self.start as int, self.end as int)
    }

    /// A range over the open interval between `start` and `end`.
    pub fn new(start: usize, end: usize) -> (r: BiRange)
        ensures
            r.remaining() == birange_seq(start as int, end as int),
    {
        BiRange { start, end }
    }

    /// The next number of the interval, stepping toward the far bound; `None`
    /// once the interval is exhausted.
    pub fn next(&mut self) -> (r: Option<usize>)
        ensures
            old(self).remaining().len() == 0 ==> r is None && final(self).remaining().len() == 0,
            old(self).remaining().len() > 0 ==> r == Some(old(self).remaining()[0])
                && final(self).remaining() == old(self).remaining().drop_first(),
    {
        if self.start == self.end {
            return None;
        }
        if self.start < self.end {
            self.start = self.start + 1;
        } else {
            self.start = self.start - 1;
        }
        if self.start == self.end {
            proof {
                assert(old(self).remaining() =~= Seq::<usize>::empty());
            }
            None
        } else {
            proof {
                assert(old(self).remaining() =~= seq![self.start] + self.remaining());
                assert((seq![self.start] + self.remaining()).drop_first() =~= self.remaining());
            }
            Some(self.start)
        }
    }

    /// All numbers of the interval, in order.
    pub fn collect_vec(self) -> (v: Vec<usize>)
        ensures
            v@ == self.remaining(),
    {
        let mut it = self;
        let ghost total = it.remaining();
        let mut out: Vec<usize> = Vec::new();
        proof {
            assert(out@ + it.remaining() =~= total);
        }
        loop
            invariant_except_break
                out@ + it.remaining() == total,
            ensures
                out@ == total,
            decreases it.remaining().len(),
        {
            let ghost pre = out@;
            match it.next() {
                None => {
                    proof {
                        assert(out@ =~= out@ + it.remaining());
                    }
                    break ;
                },
                Some(x) => {
                    out.push(x);
                    proof {
                        assert(pre + (seq![x] + it.remaining()) =~= (pre + seq![x])
                            + it.remaining());
                        assert(out@ =~= pre + seq![x]);
                    }
                },
            }
        }
        out
    }
}

/// An ASCII whitespace character, as trimmed off a textual move.
pub open spec fn is_space(c: char) -> bool {
    c == ' ' || c == '\t' || c == '\n' || c == '\r'
}

/// How many whitespace characters the text starts with.
pub open spec fn lead_spaces(s: Seq<char>) -> int
    decreases s.len(),
{
    if s.len() == 0 {
        0
    } else if is_space(s[0]) {
        1 + lead_spaces(s.drop_first())
    } else {
        0
    }
}

/// A file letter: `a` or any letter after it.
pub open spec fn is_file_char(c: char) -> bool {
    c as int >= 'a' as int
}

/// A rank digit: `1` through `9`.
pub open spec fn is_rank_char(c: char) -> bool {
    '1' as int <= c as int <= '9' as int
}

/// What parsing a textual move yields: after trimming whitespace the text
/// must be two two-character squares separated by one space, each a file
/// letter followed by a rank digit; the coordinates are zero-based
/// (`"a2 a3"` gives `((1, 0), (2, 0))`). Bounds are not checked here: the
/// validator rejects out-of-range squares itself.
pub open spec fn parse_move_spec(s: Seq<char>) -> Option<((usize, usize), (usize, usize))> {
    let lead = lead_spaces(s);
    let trail = lead_spaces(s.reverse());
    if lead + trail > s.len() {
        None
    } else {
        let t = s.subrange(lead, s.len() - trail);
        if t.len() == 5 && t[2] == ' ' && is_file_char(t[0]) && is_rank_char(t[1]) && is_file_char(
            t[3],
        ) && is_rank_char(t[4]) {
            Some(
                (
                    ((t[1] as int - '1' as int) as usize, (t[0] as int - 'a' as int) as usize),
                    ((t[4] as int - '1' as int) as usize, (t[3] as int - 'a' as int) as usize),
                ),
            )
        } else {
            None
        }
    }
}

/// Whitespace runs at the front are exactly the scanned prefix.
proof fn lemma_lead_spaces(s: Seq<char>, i: int)
    requires
        0 <= i <= s.len(),
        forall|j: int| 0 <= j < i ==> is_space(#[trigger] s[j]),
        i < s.len() ==> !is_space(s[i]),
    ensures
        lead_spaces(s) == i,
    decreases i,
{
    if s.len() == 0 {
    } else if i == 0 {
    } else {
        assert forall|j: int| 0 <= j < i - 1 implies is_space(#[trigger] s.drop_first()[j]) by {
            assert(s.drop_first()[j] == s[j + 1]);
        }
        assert(i - 1 < s.drop_first().len() ==> !is_space(s.drop_first()[i - 1]));
        lemma_lead_spaces(s.drop_first(), i - 1);
    }
}

/// Turn a textual move such as `e2 e4` into a pair of board coordinates, row
/// first: the rank digit minus one, then the file letter's offset from `a`.
/// Malformed input is rejected rather than acted on.
pub fn parse_move(input: &str) -> (r: Result<((usize, usize), (usize, usize)), &'static str>)
    ensures
        match parse_move_spec(input@) {
            Some(m) => r == Ok::<((usize, usize), (usize, usize)), &'static str>(m),
            None => r is Err,
        },
{
    let n = input.unicode_len();
    let mut lead: usize = 0;
    loop
        invariant_except_break
            n == input@.len(),
            lead <= n,
            forall|j: int| 0 <= j < lead ==> is_space(#[trigger] input@[j]),
        ensures
            n == input@.len(),
            lead <= n,
            forall|j: int| 0 <= j < lead ==> is_space(#[trigger] input@[j]),
            lead < n ==> !is_space(input@[lead as int]),
        decreases n - lead,
    {
        if lead >= n {
            break ;
        }
        let c = input.get_char(lead);
        if !(c == ' ' || c == '\t' || c == '\n' || c == '\r') {
            break ;
        }
        lead = lead + 1;
    }
    proof {
        lemma_lead_spaces(input@, lead as int);
    }
    if lead == n {
        // nothing but whitespace: the trimmed text is empty
        proof {
            let rev = input@.reverse();
            assert forall|j: int| 0 <= j < n implies is_space(#[trigger] rev[j]) by {
                assert(rev[j] == input@[n - 1 - j]);
            }
            lemma_lead_spaces(rev, n as int);
            if lead_spaces(input@) + lead_spaces(rev) <= input@.len() {
                assert(input@.subrange(
                    lead_spaces(input@),
                    input@.len() - lead_spaces(rev),
                ).len() != 5);
            }
        }
        return Err("Invalid input");
    }
    let mut last: usize = n - 1;
    loop
        invariant_except_break
            n == input@.len(),
            lead <= last < n,
            forall|j: int| last < j < n ==> is_space(#[trigger] input@[j]),
            lead as int == lead_spaces(input@),
            forall|j: int| 0 <= j < lead ==> is_space(#[trigger] input@[j]),
            !is_space(input@[lead as int]),
        ensures
            n == input@.len(),
            lead <= last < n,
            forall|j: int| last < j < n ==> is_space(#[trigger] input@[j]),
            lead as int == lead_spaces(input@),
            !is_space(input@[last as int]),
        decreases last,
    {
        if last <= lead {
            break ;
        }
        let c = input.get_char(last);
        if !(c == ' ' || c == '\t' || c == '\n' || c == '\r') {
            break ;
        }
        last = last - 1;
    }
    // the character under `last` is not whitespace: either it sits past the
    // leading run, or it is the first non-whitespace character itself
    proof {
        assert(!is_space(input@[last as int]));
        assert forall|j: int| 0 <= j < n - 1 - last implies is_space(
            #[trigger] input@.reverse()[j],
        ) by {
            assert(input@.reverse()[j] == input@[n - 1 - j]);
        }
        assert(n - 1 - last < input@.reverse().len() ==> !is_space(
            input@.reverse()[n - 1 - last],
        )) by {
            assert(input@.reverse()[n - 1 - last] == input@[last as int]);
        }
        lemma_lead_spaces(input@.reverse(), n - 1 - last as int);
    }
    let ghost t = input@.subrange(lead as int, last as int + 1);
    if !(last - lead == 4) {
        return Err("Invalid input");
    }
    let c0 = input.get_char(lead);
    let c1 = input.get_char(lead + 1);
    let c2 = input.get_char(lead + 2);
    let c3 = input.get_char(lead + 3);
    let c4 = input.get_char(lead + 4);
    proof {
        assert(t.len() == 5);
        assert(t[0] == c0 && t[1] == c1 && t[2] == c2 && t[3] == c3 && t[4] == c4);
    }
    if c2 != ' ' {
        return Err("Invalid input");
    }
    if !(c0 >= 'a') || !(c1 >= '1' && c1 <= '9') || !(c3 >= 'a') || !(c4 >= '1' && c4 <= '9') {
        return Err("Invalid input");
    }
    let start = ((c1 as u32 - '1' as u32) as usize, (c0 as u32 - 'a' as u32) as usize);
    let end = ((c4 as u32 - '1' as u32) as usize, (c3 as u32 - 'a' as u32) as usize);
    Ok((start, end))
}

} // verus!
