//! Executable line scanning: from a document's characters to the sequence
//! of levels of its content lines.

use crate::model::{
    as_nats, doc_levels, doc_tab, first_nonws, is_skip_line, is_tab_line, is_ws_char,
    leading_spaces, lemma_first_nonws_is, lemma_leading_spaces_is, lemma_line_len_is, line_len,
    rest_after,
};
use vstd::prelude::*;
use vstd::std_specs::iter::IteratorSpec;

verus! {

broadcast use vstd::string::next_postcondition;

/// The characters of a string, as a vector.
pub(crate) fn chars_vec(s: &str) -> (r: Vec<char>)
    ensures
        r@ == s@,
{
    let mut it = s.chars();
    let mut v: Vec<char> = Vec::new();
    proof {
        vstd::string::axiom_spec_iter(s);
        assert(v@ + it.remaining() =~= s@);
    }
    loop
        invariant
            v@ + it.remaining() == s@,
            it.decrease() is Some,
        decreases it.decrease()->0,
    {
        let ghost old_rem = it.remaining();
        let ghost old_v = v@;
        match it.next() {
            Some(c) => {
                v.push(c);
                proof {
                    assert(v@ + it.remaining() =~= old_v + old_rem);
                }
            },
            None => {
                proof {
                    assert(v@ =~= s@);
                }
                return v;
            },
        }
    }
}

/// Whether `c` is whitespace to the line filter.
fn is_ws(c: char) -> (r: bool)
    ensures
        r == is_ws_char(c),
{
    let u = c as u32;
    u == 0x20 || (0x09 <= u && u <= 0x0d) || u == 0x85 || u == 0xa0 || u == 0x1680 || (0x2000 <= u
        && u <= 0x200a) || u == 0x2028 || u == 0x2029 || u == 0x202f || u == 0x205f || u == 0x3000
}

/// Finds the end of the line that starts at `i`: the position of the next
/// newline, or the end of the document.
fn scan_line_end(chars: &Vec<char>, i: usize) -> (j: usize)
    requires
        i <= chars@.len(),
    ensures
        i <= j <= chars@.len(),
        line_len(chars@.skip(i as int)) == (j - i) as nat,
{
    let n: usize = chars.len();
    let mut j: usize = i;
    while j < n && chars[j] != '\n'
        invariant
            i <= j <= n,
            n == chars@.len(),
            forall|k: int| i <= k < j ==> chars@[k] != '\n',
        decreases n - j,
    {
        j += 1;
    }
    proof {
        let s = chars@.skip(i as int);
        assert forall|k: int| 0 <= k < (j - i) implies s[k] != '\n' by {
            assert(s[k] == chars@[i + k]);
        }
        lemma_line_len_is(s, (j - i) as nat);
    }
    j
}

/// Counts the spaces at the front of the line `[i, j)`.
fn scan_spaces(chars: &Vec<char>, i: usize, j: usize) -> (m: usize)
    requires
        i <= j <= chars@.len(),
    ensures
        i <= m <= j,
        leading_spaces(chars@.subrange(i as int, j as int)) == (m - i) as nat,
        m < j ==> chars@[m as int] != ' ',
{
    let mut m: usize = i;
    while m < j && chars[m] == ' '
        invariant
            i <= m <= j,
            j <= chars@.len(),
            forall|k: int| i <= k < m ==> chars@[k] == ' ',
        decreases j - m,
    {
        m += 1;
    }
    proof {
        let l = chars@.subrange(i as int, j as int);
        assert forall|k: int| 0 <= k < (m - i) implies l[k] == ' ' by {
            assert(l[k] == chars@[i + k]);
        }
        lemma_leading_spaces_is(l, (m - i) as nat);
    }
    m
}

/// Finds the first character of the line `[i, j)` that is not whitespace,
/// or `j` if the line is all whitespace.
fn scan_nonws(chars: &Vec<char>, i: usize, j: usize) -> (m: usize)
    requires
        i <= j <= chars@.len(),
    ensures
        i <= m <= j,
        first_nonws(chars@.subrange(i as int, j as int)) == (m - i) as nat,
        m < j ==> !is_ws_char(chars@[m as int]),
{
    let mut m: usize = i;
    while m < j && is_ws(chars[m])
        invariant
            i <= m <= j,
            j <= chars@.len(),
            forall|k: int| i <= k < m ==> is_ws_char(chars@[k]),
        decreases j - m,
    {
        m += 1;
    }
    proof {
        let l = chars@.subrange(i as int, j as int);
        assert forall|k: int| 0 <= k < (m - i) implies is_ws_char(l[k]) by {
            assert(l[k] == chars@[i + k]);
        }
        lemma_first_nonws_is(l, (m - i) as nat);
    }
    m
}

/// Walks the document line by line and collects the leading-space count of
/// every content line, in order. Returns nothing when some content line has
/// a tab just after its leading spaces.
pub(crate) fn collect_levels(chars: &Vec<char>) -> (r: Option<Vec<usize>>)
    ensures
        r is Some <==> !doc_tab(chars@),
        r matches Some(v) ==> as_nats(v@) == doc_levels(chars@),
{
    let n: usize = chars.len();
    let mut i: usize = 0;
    let mut levels: Vec<usize> = Vec::new();
    proof {
        assert(chars@.skip(0) =~= chars@);
        assert(as_nats(levels@) =~= Seq::<nat>::empty());
        assert(Seq::<nat>::empty() + doc_levels(chars@) =~= doc_levels(chars@));
    }
    while i < n
        invariant
            i <= n,
            n == chars@.len(),
            doc_tab(chars@) == doc_tab(chars@.skip(i as int)),
            doc_levels(chars@) == as_nats(levels@) + doc_levels(chars@.skip(i as int)),
        decreases n - i,
    {
        let ghost s = chars@.skip(i as int);
        let j: usize = scan_line_end(chars, i);
        let ghost l = s.take(line_len(s) as int);
        proof {
            assert(l =~= chars@.subrange(i as int, j as int));
            if j == n {
                assert(rest_after(s) =~= chars@.skip(n as int));
            } else {
                assert(s.skip((j - i) as int + 1) =~= chars@.skip(j + 1));
            }
        }
        let k: usize = scan_nonws(chars, i, j);
        if k == j || chars[k] == '#' {
            // Blank or comment-only line: contributes nothing.
            proof {
                if k < j {
                    assert(l[(k - i) as int] == chars@[k as int]);
                }
                assert(is_skip_line(l));
                assert(Seq::<nat>::empty() + doc_levels(rest_after(s)) =~= doc_levels(
                    rest_after(s),
                ));
            }
        } else {
            proof {
                assert(l[(k - i) as int] == chars@[k as int]);
                assert(!is_skip_line(l));
            }
            let m: usize = scan_spaces(chars, i, j);
            if m < j && chars[m] == '\t' {
                // A tab where indentation is expected aborts the analysis.
                proof {
                    assert(l[(m - i) as int] == chars@[m as int]);
                    assert(is_tab_line(l));
                    assert(doc_tab(s));
                }
                return None;
            }
            proof {
                if m < j {
                    assert(l[(m - i) as int] == chars@[m as int]);
                }
                assert(!is_tab_line(l));
            }
            let ghost old_levels = as_nats(levels@);
            levels.push(m - i);
            proof {
                assert(as_nats(levels@) =~= old_levels + seq![(m - i) as nat]);
                assert((old_levels + seq![(m - i) as nat]) + doc_levels(rest_after(s)) =~= old_levels
                    + (seq![(m - i) as nat] + doc_levels(rest_after(s))));
            }
        }
        i = if j < n {
            j + 1
        } else {
            n
        };
    }
    proof {
        assert(chars@.skip(n as int) =~= Seq::<char>::empty());
        assert(as_nats(levels@) + doc_levels(Seq::<char>::empty()) =~= as_nats(levels@));
    }
    Some(levels)
}

} // verus!
