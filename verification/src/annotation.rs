use crate::text::{chars_of, is_white_space, white_space};
use vstd::prelude::*;

verus! {

/// Every character of `s[from..to)` is white space.
pub open spec fn blank(s: Seq<char>, from: int, to: int) -> bool {
    forall|m: int| from <= m < to ==> is_white_space(#[trigger] s[m])
}

/// No character of `s[from..to)` is a line feed.
pub open spec fn one_line(s: Seq<char>, from: int, to: int) -> bool {
    forall|m: int| from <= m < to ==> #[trigger] s[m] != '\n'
}

/// `s` reads: significant text `s[..k)` on one line, white space, a
/// parenthetical group from `open` to `close` on one line, and white space up
/// to the end.
pub open spec fn splits_at(s: Seq<char>, k: int, open: int, close: int) -> bool {
    &&& 0 <= k <= open < close < s.len()
    &&& one_line(s, 0, k)
    &&& blank(s, k, open)
    &&& s[open] == '('
    &&& one_line(s, open + 1, close)
    &&& s[close] == ')'
    &&& blank(s, close + 1, s.len() as int)
}

/// What follows `s[..k)` is a trailing parenthetical annotation.
pub open spec fn annotation_starts_at(s: Seq<char>, k: int) -> bool {
    exists|open: int, close: int| splits_at(s, k, open, close)
}

/// `k` is the first position at which a trailing annotation starts.
pub open spec fn is_first_start(s: Seq<char>, k: int) -> bool {
    &&& annotation_starts_at(s, k)
    &&& forall|j: int| 0 <= j < k ==> !annotation_starts_at(s, j)
}

/// The significant text of an annotated value: its shortest prefix that a
/// trailing annotation follows. `None` where the value has no such shape.
pub open spec fn annotated_prefix(s: Seq<char>) -> Option<Seq<char>> {
    if exists|k: int| is_first_start(s, k) {
        Some(s.take(choose|k: int| is_first_start(s, k)))
    } else {
        None
    }
}

/// The last character of `s` that is not white space is a closing
/// parenthesis.
pub open spec fn ends_in_group(s: Seq<char>) -> bool {
    exists|close: int|
        0 <= close < s.len() && s[close] == ')' && blank(s, close + 1, s.len() as int)
}

/// The first start is unique, so the prefix is the text before it.
pub proof fn lemma_first_start(s: Seq<char>, k: int)
    requires
        is_first_start(s, k),
    ensures
        annotated_prefix(s) == Some(s.take(k)),
{
    let c = choose|c: int| is_first_start(s, c);
    if c < k {
        assert(!annotation_starts_at(s, c));
    } else if k < c {
        assert(!annotation_starts_at(s, k));
    }
}

/// The group of any split closes at the last character that is not white
/// space.
pub proof fn lemma_group_closes_last(s: Seq<char>, k: int, open: int, close: int, end: int)
    requires
        splits_at(s, k, open, close),
        0 <= end <= s.len(),
        blank(s, end, s.len() as int),
        end > 0 ==> !is_white_space(s[end - 1]),
    ensures
        close == end - 1,
{
    if close >= end {
        assert(is_white_space(s[close]));
    } else if close < end - 1 {
        assert(is_white_space(s[end - 1]));
    }
}

/// The group of any split opens on the line on which it closes.
pub proof fn lemma_group_opens_on_line(s: Seq<char>, k: int, open: int, close: int, line: int)
    requires
        splits_at(s, k, open, close),
        0 <= line <= close,
        line > 0 ==> s[line - 1] == '\n',
    ensures
        line <= open,
{
    if open < line {
        assert(s[line - 1] == '\n');
    }
}

/// No annotation starts before the white space that leads to the first
/// parenthesis `first` of the last line.
pub proof fn lemma_start_not_before(
    s: Seq<char>,
    j: int,
    open: int,
    close: int,
    k: int,
    first: int,
    line: int,
)
    requires
        splits_at(s, j, open, close),
        0 <= k <= first,
        line <= first,
        line <= open,
        s[first] == '(',
        forall|m: int| line <= m < first ==> s[m] != '(',
        k > 0 ==> !is_white_space(s[k - 1]),
    ensures
        k <= j,
{
    if j < k {
        if first < open {
            assert(is_white_space(s[first]));
        }
        assert(is_white_space(s[k - 1]));
    }
}

/// A value that does not end in a group has no annotation.
pub proof fn lemma_no_group_no_prefix(s: Seq<char>)
    requires
        !ends_in_group(s),
    ensures
        annotated_prefix(s).is_none(),
{
    assert forall|k: int, open: int, close: int| !splits_at(s, k, open, close) by {
        if splits_at(s, k, open, close) {
            assert(0 <= close < s.len() && s[close] == ')' && blank(
                s,
                close + 1,
                s.len() as int,
            ));
        }
    }
}

/// Finds the significant text of an annotated value.
pub fn find_annotated_prefix(v: &str) -> (r: Option<String>)
    ensures
        match r {
            Some(p) => annotated_prefix(v@) == Some(p@),
            None => annotated_prefix(v@).is_none(),
        },
{
    let c = chars_of(v);
    let n: usize = c.len();
    // The group closes at the last character that is not white space.
    let mut end: usize = n;
    while end > 0 && white_space(c[end - 1])
        invariant
            end <= n,
            n == c@.len(),
            blank(c@, end as int, n as int),
        decreases end,
    {
        end = end - 1;
    }
    if end == 0 || c[end - 1] != ')' {
        proof {
            assert forall|j: int, o: int, cl: int| !splits_at(c@, j, o, cl) by {
                if splits_at(c@, j, o, cl) {
                    lemma_group_closes_last(c@, j, o, cl, end as int);
                }
            }
        }
        return None;
    }
    let close: usize = end - 1;
    // It opens at the first parenthesis of the line on which it closes.
    let mut line: usize = close;
    let mut first: Option<usize> = None;
    while line > 0 && c[line - 1] != '\n'
        invariant
            line <= close < n,
            n == c@.len(),
            one_line(c@, line as int, close as int),
            match first {
                Some(o) => line <= o < close && c@[o as int] == '(' && forall|m: int|
                    line <= m < o ==> c@[m] != '(',
                None => forall|m: int| line <= m < close ==> c@[m] != '(',
            },
        decreases line,
    {
        line = line - 1;
        if c[line] == '(' {
            first = Some(line);
        }
    }
    let open: usize = match first {
        Some(o) => o,
        None => {
            proof {
                assert forall|j: int, o: int, cl: int| !splits_at(c@, j, o, cl) by {
                    if splits_at(c@, j, o, cl) {
                        lemma_group_closes_last(c@, j, o, cl, end as int);
                        lemma_group_opens_on_line(c@, j, o, cl, line as int);
                    }
                }
            }
            return None;
        },
    };
    // The significant text ends where the white space before the group begins.
    let mut k: usize = open;
    while k > 0 && white_space(c[k - 1])
        invariant
            k <= open,
            n == c@.len(),
            open < n,
            blank(c@, k as int, open as int),
        decreases k,
    {
        k = k - 1;
    }
    // And it holds no line feed.
    let mut i: usize = 0;
    while i < k && c[i] != '\n'
        invariant
            i <= k <= open,
            n == c@.len(),
            open < n,
            one_line(c@, 0, i as int),
        decreases k - i,
    {
        i = i + 1;
    }
    proof {
        assert forall|j: int, o: int, cl: int| splits_at(c@, j, o, cl) implies k <= j by {
            lemma_group_closes_last(c@, j, o, cl, end as int);
            lemma_group_opens_on_line(c@, j, o, cl, line as int);
            lemma_start_not_before(c@, j, o, cl, k as int, open as int, line as int);
        }
    }
    if i < k {
        proof {
            assert forall|j: int, o: int, cl: int| !splits_at(c@, j, o, cl) by {
                if splits_at(c@, j, o, cl) {
                    assert(c@[i as int] == '\n');
                }
            }
        }
        return None;
    }
    proof {
        assert(splits_at(c@, k as int, open as int, close as int));
        lemma_first_start(c@, k as int);
    }
    Some(v.substring_char(0, k).to_owned())
}

} // verus!
