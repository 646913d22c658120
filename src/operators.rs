//! The operator catalogue and the single alternation pattern built from it.
use vstd::prelude::*;
use vstd::string::*;

verus! {

/// The operator literals, in priority order. An operator that has a
/// shorter operator as a prefix comes before it, so that the alternation
/// commits to the longer one.
pub open spec fn operator_catalogue() -> Seq<Seq<char>> {
    seq![
        "=="@, "!="@, "<="@, ">="@, ">"@, "<"@,
        "++"@, "--"@, "+="@, "-="@, "*="@, "/="@,
        "+"@, "-"@, "/"@, "*"@, "!"@,
    ]
}

/// The pattern text for one character of an operator: the two regex
/// metacharacters that occur in the catalogue are escaped.
pub open spec fn escape_char(c: char) -> Seq<char> {
    if c == '*' {
        "\\*"@
    } else if c == '+' {
        "\\+"@
    } else {
        seq![c]
    }
}

/// `op` with each character escaped for use inside a pattern.
pub open spec fn escape(op: Seq<char>) -> Seq<char>
    decreases op.len(),
{
    if op.len() == 0 {
        seq![]
    } else {
        escape(op.drop_last()) + escape_char(op.last())
    }
}

/// One alternative of the operator pattern: the escaped operator as a group.
pub open spec fn operator_group(op: Seq<char>) -> Seq<char> {
    "("@ + escape(op) + ")"@
}

/// The groups of `ops`, in order, separated by `|`.
pub open spec fn alternation(ops: Seq<Seq<char>>) -> Seq<char>
    decreases ops.len(),
{
    if ops.len() == 0 {
        seq![]
    } else if ops.len() == 1 {
        operator_group(ops[0])
    } else {
        alternation(ops.drop_last()) + "|"@ + operator_group(ops.last())
    }
}

/// The `Operator` pattern: anchored at the start of the haystack, the
/// alternation of the catalogue, then a boundary assertion that always holds.
pub open spec fn operator_pattern() -> Seq<char> {
    "\\A("@ + alternation(operator_catalogue()) + ")(\\b|\\B|$)"@
}

/// Whether `a` is a proper prefix of `b`.
pub open spec fn is_proper_prefix(a: Seq<char>, b: Seq<char>) -> bool {
    a.len() < b.len() && b.take(a.len() as int) == a
}

/// The catalogue keeps longer operators first: an operator that is a proper
/// prefix of another stands after it, so the alternation, which commits to
/// the first alternative that matches, takes the longer one.
pub proof fn lemma_longer_operators_first()
    ensures
        forall|i: int, j: int|
            0 <= i < operator_catalogue().len() && 0 <= j < operator_catalogue().len()
                && is_proper_prefix(#[trigger] operator_catalogue()[j], #[trigger] operator_catalogue()[i])
                ==> i < j,
{
    assert("=="@ =~= seq!['=', '=']) by {
        reveal_strlit("==");
    }
    assert("!="@ =~= seq!['!', '=']) by {
        reveal_strlit("!=");
    }
    assert("<="@ =~= seq!['<', '=']) by {
        reveal_strlit("<=");
    }
    assert(">="@ =~= seq!['>', '=']) by {
        reveal_strlit(">=");
    }
    assert(">"@ =~= seq!['>']) by {
        reveal_strlit(">");
    }
    assert("<"@ =~= seq!['<']) by {
        reveal_strlit("<");
    }
    assert("++"@ =~= seq!['+', '+']) by {
        reveal_strlit("++");
    }
    assert("--"@ =~= seq!['-', '-']) by {
        reveal_strlit("--");
    }
    assert("+="@ =~= seq!['+', '=']) by {
        reveal_strlit("+=");
    }
    assert("-="@ =~= seq!['-', '=']) by {
        reveal_strlit("-=");
    }
    assert("*="@ =~= seq!['*', '=']) by {
        reveal_strlit("*=");
    }
    assert("/="@ =~= seq!['/', '=']) by {
        reveal_strlit("/=");
    }
    assert("+"@ =~= seq!['+']) by {
        reveal_strlit("+");
    }
    assert("-"@ =~= seq!['-']) by {
        reveal_strlit("-");
    }
    assert("/"@ =~= seq!['/']) by {
        reveal_strlit("/");
    }
    assert("*"@ =~= seq!['*']) by {
        reveal_strlit("*");
    }
    assert("!"@ =~= seq!['!']) by {
        reveal_strlit("!");
    }
    let cat = operator_catalogue();
    assert(cat =~= seq![
        seq!['=', '='], seq!['!', '='], seq!['<', '='], seq!['>', '='], seq!['>'], seq!['<'],
        seq!['+', '+'], seq!['-', '-'], seq!['+', '='], seq!['-', '='], seq!['*', '='], seq!['/', '='],
        seq!['+'], seq!['-'], seq!['/'], seq!['*'], seq!['!'],
    ]);
    assert forall|i: int, j: int|
        0 <= i < cat.len() && 0 <= j < cat.len() && is_proper_prefix(
            #[trigger] cat[j],
            #[trigger] cat[i],
        ) implies i < j by {
        if j <= i {
            assert(cat[j].len() == 1 && cat[i].len() == 2);
            assert(cat[i].take(1)[0] == cat[i][0]);
        }
    }
}

fn operator_literals() -> (r: Vec<&'static str>)
    ensures
        r@.map_values(|s: &str| s@) == operator_catalogue(),
{
    let r: Vec<&'static str> = vec![
        "==", "!=", "<=", ">=", ">", "<",
        "++", "--", "+=", "-=", "*=", "/=",
        "+", "-", "/", "*", "!",
    ];
    assert(r@.map_values(|s: &str| s@) =~= operator_catalogue());
    r
}

/// Appends `escape(op@)` to `out`.
fn push_escaped(out: &mut String, op: &str)
    ensures
        final(out)@ == old(out)@ + escape(op@),
{
    let n = op.unicode_len();
    let mut j: usize = 0;
    while j < n
        invariant
            n == op@.len(),
            j <= n,
            out@ == old(out)@ + escape(op@.take(j as int)),
        decreases n - j,
    {
        let c = op.get_char(j);
        let ghost before = out@;
        if c == '*' {
            out.append("\\*");
        } else if c == '+' {
            out.append("\\+");
        } else {
            out.append(op.substring_char(j, j + 1));
            assert(op@.subrange(j as int, j + 1) =~= seq![c]);
        }
        assert(op@.take(j + 1).drop_last() =~= op@.take(j as int));
        assert(out@ =~= old(out)@ + escape(op@.take(j + 1)));
        j = j + 1;
    }
    assert(op@.take(n as int) =~= op@);
}

/// Builds the `Operator` pattern from the operator catalogue.
pub fn get_operator_regex() -> (r: String)
    ensures
        r@ == operator_pattern(),
{
    let ops = operator_literals();
    let ghost cat = operator_catalogue();
    let mut pattern = String::from_str("\\A(");
    let mut i: usize = 0;
    while i < ops.len()
        invariant
            ops@.map_values(|s: &str| s@) == cat,
            cat == operator_catalogue(),
            i <= ops.len(),
            pattern@ == "\\A("@ + alternation(cat.take(i as int)),
        decreases ops.len() - i,
    {
        assert(ops[i as int]@ == cat[i as int]);
        if i > 0 {
            pattern.append("|");
        }
        pattern.append("(");
        push_escaped(&mut pattern, ops[i]);
        pattern.append(")");
        assert(cat.take(i + 1).drop_last() =~= cat.take(i as int));
        if i == 0 {
            assert(alternation(cat.take(1)) == operator_group(cat[0]));
        }
        assert(pattern@ =~= "\\A("@ + alternation(cat.take(i + 1)));
        i = i + 1;
    }
    assert(cat.take(ops.len() as int) =~= cat);
    pattern.append(")(\\b|\\B|$)");
    assert(pattern@ =~= operator_pattern());
    pattern
}

} // verus!
