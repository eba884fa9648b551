//! Handing arguments on to another start of the program.

use vstd::prelude::*;
use vstd::string::*;

verus! {

/// A character inside quotes: a quote is escaped.
pub open spec fn escaped_char(c: char) -> Seq<char> {
    if c == '"' {
        seq!['\\', '"']
    } else {
        seq![c]
    }
}

/// A text inside quotes.
pub open spec fn escaped(s: Seq<char>) -> Seq<char>
    decreases s.len(),
{
    if s.len() == 0 {
        seq![]
    } else {
        escaped(s.drop_last()) + escaped_char(s.last())
    }
}

/// An argument in quotes.
pub open spec fn quoted(s: Seq<char>) -> Seq<char> {
    seq!['"'] + escaped(s) + seq!['"']
}

/// Arguments in quotes with a space between them.
pub open spec fn argument_line(args: Seq<String>) -> Seq<char>
    decreases args.len(),
{
    if args.len() == 0 {
        seq![]
    } else if args.len() == 1 {
        quoted(args[0]@)
    } else {
        argument_line(args.drop_last()) + seq![' '] + quoted(args.last()@)
    }
}

/// Appends an argument in quotes.
fn append_quoted(line: &mut String, arg: &str)
    ensures
        final(line)@ == old(line)@ + quoted(arg@),
{
    proof {
        reveal_strlit("\"");
        reveal_strlit("\\\"");
        assert("\""@ =~= seq!['"']);
        assert("\\\""@ =~= seq!['\\', '"']);
    }
    let ghost start = line@;
    line.append("\"");
    let n: usize = arg.unicode_len();
    assert(arg@.take(0) =~= Seq::<char>::empty());
    assert(line@ =~= start + seq!['"'] + escaped(arg@.take(0)));
    for i in 0..n
        invariant
            n == arg@.len(),
            "\\\""@ == seq!['\\', '"'],
            line@ == start + seq!['"'] + escaped(arg@.take(i as int)),
    {
        let ghost before = line@;
        proof {
            assert(arg@.take(i + 1).drop_last() =~= arg@.take(i as int));
        }
        if arg.get_char(i) == '"' {
            line.append("\\\"");
        } else {
            let c: &str = arg.substring_char(i, i + 1);
            assert(c@ =~= seq![arg@[i as int]]);
            line.append(c);
        }
        assert(line@ =~= before + escaped_char(arg@[i as int]));
        assert(line@ =~= start + seq!['"'] + escaped(arg@.take(i + 1)));
    }
    line.append("\"");
    assert(arg@.take(n as int) =~= arg@);
    assert(line@ =~= start + quoted(arg@));
}

/// The arguments in quotes, with a space between them.
pub fn quote_arguments(args: &Vec<String>) -> (line: String)
    ensures
        line@ == argument_line(args@),
{
    proof {
        reveal_strlit(" ");
        assert(" "@ =~= seq![' ']);
    }
    let mut line: String = String::new();
    let n: usize = args.len();
    assert(line@ =~= argument_line(args@.take(0)));
    for i in 0..n
        invariant
            n == args@.len(),
            " "@ == seq![' '],
            line@ == argument_line(args@.take(i as int)),
    {
        let ghost before = line@;
        proof {
            let part = args@.take(i + 1);
            assert(part.drop_last() =~= args@.take(i as int));
            assert(part.last() == args@[i as int]);
        }
        if i > 0 {
            line.append(" ");
        }
        append_quoted(&mut line, args[i].as_str());
        assert(line@ =~= argument_line(args@.take(i + 1)));
    }
    assert(args@.take(n as int) =~= args@);
    line
}

/// Text without the mark before each quote.
pub open spec fn unescaped(s: Seq<char>) -> Seq<char>
    decreases s.len(),
{
    if s.len() == 0 {
        seq![]
    } else if s.last() == '"' && s.len() >= 2 {
        unescaped(s.take(s.len() - 2)).push('"')
    } else {
        unescaped(s.drop_last()).push(s.last())
    }
}

/// Nothing of an argument is lost: taking off the quotes around it and the marks before the quotes
/// in it gives it back.
pub proof fn law_quoting_keeps_arguments(s: Seq<char>)
    ensures
        quoted(s).len() >= 2,
        quoted(s)[0] == '"' && quoted(s).last() == '"',
        unescaped(quoted(s).subrange(1, quoted(s).len() - 1)) == s,
    decreases s.len(),
{
    assert(quoted(s).subrange(1, quoted(s).len() - 1) =~= escaped(s));
    lemma_unescaped(s);
}

proof fn lemma_unescaped(s: Seq<char>)
    ensures
        unescaped(escaped(s)) == s,
    decreases s.len(),
{
    if s.len() > 0 {
        let r = s.drop_last();
        let e = escaped(s);
        lemma_unescaped(r);
        if s.last() == '"' {
            assert(e.take(e.len() - 2) =~= escaped(r));
        } else {
            assert(e.drop_last() =~= escaped(r));
        }
        assert(r.push(s.last()) =~= s);
    } else {
        assert(s =~= seq![]);
    }
}

/// Arguments come in their order, with a space between them.
pub proof fn law_arguments_come_in_order(args: Seq<String>, last: String)
    ensures
        argument_line(seq![last]) == quoted(last@),
        args.len() > 0 ==> argument_line(args.push(last)) == argument_line(args) + seq![' ']
            + quoted(last@),
{
    if args.len() > 0 {
        assert(args.push(last).drop_last() =~= args);
    }
}

} // verus!
