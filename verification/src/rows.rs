//! The output unit of every report: an ordered column-name-to-text mapping,
//! together with the escaping rule for writing a cell into delimited text.

use vstd::prelude::*;
use crate::text::chars_to_string;

verus! {

/// One report row: column names paired with rendered text, in the report's
/// declared header order.
pub struct ReportRow {
    pub cols: Vec<(String, String)>,
}

/// The mathematical content of a row: its (name, text) pairs.
pub open spec fn row_view(r: ReportRow) -> Seq<(Seq<char>, Seq<char>)> {
    r.cols@.map_values(|p: (String, String)| (p.0@, p.1@))
}

/// Whether a cell must be quoted in delimited output.
pub open spec fn needs_quoting(s: Seq<char>) -> bool {
    exists|i: int| 0 <= i < s.len() && (s[i] == ',' || s[i] == '"' || s[i] == '\n')
}

/// A cell body with every quote doubled.
pub open spec fn esc_body(s: Seq<char>) -> Seq<char>
    decreases s.len(),
{
    if s.len() == 0 {
        Seq::<char>::empty()
    } else {
        esc_body(s.drop_last()) + if s.last() == '"' {
            seq!['"', '"']
        } else {
            seq![s.last()]
        }
    }
}

/// The escaped form of a cell: quoted with doubled quotes when it holds a
/// separator, a quote or a newline; unchanged otherwise.
pub open spec fn spec_csv_escape(s: Seq<char>) -> Seq<char> {
    if needs_quoting(s) {
        seq!['"'] + esc_body(s) + seq!['"']
    } else {
        s
    }
}

/// Escapes one cell for delimited output.
pub fn csv_escape(value: &str) -> (r: String)
    ensures
        r@ == spec_csv_escape(value@),
{
    let n: usize = value.unicode_len();
    let mut quote: bool = false;
    let mut i: usize = 0;
    while i < n
        invariant
            i <= n,
            n == value@.len(),
            !quote ==> forall|k: int|
                0 <= k < i ==> !(value@[k] == ',' || value@[k] == '"' || value@[k] == '\n'),
            quote ==> needs_quoting(value@),
        decreases n - i,
    {
        let c = value.get_char(i);
        if c == ',' || c == '"' || c == '\n' {
            quote = true;
        }
        i += 1;
    }
    if !quote {
        let mut out: Vec<char> = Vec::new();
        let mut j: usize = 0;
        while j < n
            invariant
                j <= n,
                n == value@.len(),
                out@ == value@.subrange(0, j as int),
            decreases n - j,
        {
            out.push(value.get_char(j));
            proof {
                let ghost cj = value@[j as int];
                assert(value@.subrange(0, j + 1) =~= value@.subrange(0, j as int).push(cj));
            }
            j += 1;
        }
        proof {
            assert(out@ =~= value@);
        }
        chars_to_string(&out)
    } else {
        let mut out: Vec<char> = Vec::new();
        out.push('"');
        let mut j: usize = 0;
        proof {
            assert(value@.subrange(0, 0) =~= Seq::<char>::empty());
            assert(out@ =~= seq!['"'] + esc_body(value@.subrange(0, 0)));
        }
        while j < n
            invariant
                j <= n,
                n == value@.len(),
                out@ == seq!['"'] + esc_body(value@.subrange(0, j as int)),
            decreases n - j,
        {
            let c = value.get_char(j);
            proof {
                let ghost pre = value@.subrange(0, j as int);
                assert(value@.subrange(0, j + 1) =~= pre.push(value@[j as int]));
                assert(value@.subrange(0, j + 1).drop_last() =~= pre);
            }
            if c == '"' {
                out.push('"');
                out.push('"');
            } else {
                out.push(c);
            }
            proof {
                assert(out@ =~= seq!['"'] + esc_body(value@.subrange(0, j + 1)));
            }
            j += 1;
        }
        out.push('"');
        proof {
            assert(value@.subrange(0, n as int) =~= value@);
            assert(out@ =~= seq!['"'] + esc_body(value@) + seq!['"']);
        }
        chars_to_string(&out)
    }
}

} // verus!
