//! Text for the optional URL store.

use vstd::prelude::*;
use vstd::string::*;

use crate::text::{decimal_string, decimal_text};

verus! {

/// `$from, $from+1, ...`, `n` placeholders separated by commas.
pub open spec fn placeholder_list(from: nat, n: nat) -> Seq<char>
    decreases n,
{
    if n == 0 {
        Seq::empty()
    } else if n == 1 {
        seq!['$'] + decimal_text(from)
    } else {
        placeholder_list(from, (n - 1) as nat) + seq![',', '$'] + decimal_text((from + n - 1) as nat)
    }
}

/// `rows` groups of `columns` numbered placeholders, each group in
/// parentheses, groups separated by commas; numbering starts at 1.
pub open spec fn bind_params(rows: nat, columns: nat) -> Seq<char>
    decreases rows,
{
    if rows == 0 {
        Seq::empty()
    } else {
        let group = seq!['('] + placeholder_list(((rows - 1) * columns + 1) as nat, columns) + seq![')'];
        if rows == 1 {
            group
        } else {
            bind_params((rows - 1) as nat, columns) + seq![','] + group
        }
    }
}

/// The bind parameters of a multi-row `VALUES` list, e.g. for two rows of
/// three columns `($1,$2,$3),($4,$5,$6)`.
pub fn format_bind_params(rows: usize, columns: usize) -> (r: String)
    requires
        rows * columns < usize::MAX,
    ensures
        r@ == bind_params(rows as nat, columns as nat),
{
    proof {
        reveal_strlit("(");
        reveal_strlit(")");
        reveal_strlit(",");
        reveal_strlit("$");
        reveal_strlit(",$");
    }
    let mut s = String::new();
    let mut row: usize = 0;
    while row < rows
        invariant
            row <= rows,
            rows * columns < usize::MAX,
            s@ == bind_params(row as nat, columns as nat),
        decreases rows - row,
    {
        proof {
            reveal_strlit("(");
            reveal_strlit(")");
            reveal_strlit(",");
            reveal_strlit("$");
            reveal_strlit(",$");
            assert(row * columns + columns <= rows * columns) by (nonlinear_arith)
                requires
                    row < rows,
            ;
        }
        if row > 0 {
            s.append(",");
        }
        s.append("(");
        let first: usize = row * columns + 1;
        let ghost prefix = s@;
        let mut c: usize = 0;
        while c < columns
            invariant
                c <= columns,
                first == row * columns + 1,
                row * columns + columns < usize::MAX,
                s@ == prefix + placeholder_list(first as nat, c as nat),
            decreases columns - c,
        {
            proof {
                reveal_strlit("$");
                reveal_strlit(",$");
            }
            if c == 0 {
                s.append("$");
            } else {
                s.append(",$");
            }
            let d = decimal_string((first + c) as u64);
            s.append(d.as_str());
            c = c + 1;
            assert(s@ =~= prefix + placeholder_list(first as nat, c as nat));
        }
        s.append(")");
        row = row + 1;
        assert(((row - 1) * columns + 1) as nat == first) by (nonlinear_arith)
            requires
                first == (row - 1) * columns + 1,
        ;
        assert(s@ =~= bind_params(row as nat, columns as nat));
    }
    s
}

} // verus!
