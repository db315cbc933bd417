//! The text that the `help` command shows: the registered commands, sorted by
//! symbol, as a table of two columns.
use crate::command::{Command, CommandView};
use crate::text::{chars_of, string_of, views};
use std::rc::Rc;
use vstd::prelude::*;
use vstd::seq_lib::{to_multiset_build, to_multiset_insert};
use vstd::utf8::encode_utf8;

verus! {

/// The order of strings: character by character, a proper prefix first.
pub open spec fn text_le(a: Seq<char>, b: Seq<char>) -> bool
    decreases a.len(),
{
    if a.len() == 0 {
        true
    } else if b.len() == 0 {
        false
    } else if a[0] != b[0] {
        a[0] < b[0]
    } else {
        text_le(a.drop_first(), b.drop_first())
    }
}

/// The first place from `from` on whose command comes after `symbol`: where a
/// command with that symbol is inserted. It is the end where there is none.
pub open spec fn insertion_point(sorted: Seq<CommandView>, symbol: Seq<char>, from: nat) -> nat
    decreases sorted.len() - from,
{
    if from >= sorted.len() || !text_le(sorted[from as int].symbol, symbol) {
        from
    } else {
        insertion_point(sorted, symbol, from + 1)
    }
}

/// The first `n` commands sorted by symbol. Commands with one symbol keep
/// the order of their registration.
pub open spec fn sorted_by_symbol(commands: Seq<CommandView>, n: nat) -> Seq<CommandView>
    decreases n,
{
    if n == 0 || n > commands.len() {
        Seq::empty()
    } else {
        let before = sorted_by_symbol(commands, (n - 1) as nat);
        let c = commands[n - 1];
        before.insert(insertion_point(before, c.symbol, 0) as int, c)
    }
}

/// The number of bytes of a text in UTF-8.
pub open spec fn byte_len(s: Seq<char>) -> usize {
    encode_utf8(s).len() as usize
}

/// The width of the first column for the first `n` commands: the greatest
/// number of bytes of a symbol, and at least the width of the heading.
pub open spec fn column_width(commands: Seq<CommandView>, n: nat) -> usize
    decreases n,
{
    if n == 0 || n > commands.len() {
        7
    } else {
        let before = column_width(commands, (n - 1) as nat);
        let own = byte_len(commands[n - 1].symbol);
        if own > before {
            own
        } else {
            before
        }
    }
}

/// The given number of blanks.
pub open spec fn blanks(n: int) -> Seq<char> {
    Seq::new(
        if n > 0 {
            n as nat
        } else {
            0
        },
        |i: int| ' ',
    )
}

/// The given number of hyphens.
pub open spec fn rule(n: int) -> Seq<char> {
    Seq::new(
        if n > 0 {
            n as nat
        } else {
            0
        },
        |i: int| '-',
    )
}

/// The text followed by the blanks that fill it up to the width. A text
/// that is wider stays as it is.
pub open spec fn padded(s: Seq<char>, width: usize) -> Seq<char> {
    s + blanks(width - s.len())
}

/// The text without the blanks and tabs that it starts with.
pub open spec fn trim_start(s: Seq<char>) -> Seq<char>
    decreases s.len(),
{
    if s.len() > 0 && (s[0] == ' ' || s[0] == '\t') {
        trim_start(s.drop_first())
    } else {
        s
    }
}

/// Whether the text starts with the prefix.
pub open spec fn starts_with(s: Seq<char>, prefix: Seq<char>) -> bool {
    prefix.len() <= s.len() && s.take(prefix.len() as int) == prefix
}

/// The description of a command as the table shows it: without the symbol
/// that it repeats at its start and the blanks that follow it.
pub open spec fn shown_description(c: CommandView) -> Seq<char> {
    if starts_with(c.description, c.symbol) {
        trim_start(c.description.skip(c.symbol.len() as int))
    } else {
        c.description
    }
}

/// The row of the table for a command.
pub open spec fn row(c: CommandView, width: usize) -> Seq<char> {
    "  "@ + padded(c.symbol, width) + "  "@ + shown_description(c)
}

/// The rows for the first `n` of the commands, each on a line of its own.
pub open spec fn rows(commands: Seq<CommandView>, width: usize, n: nat) -> Seq<char>
    decreases n,
{
    if n == 0 || n > commands.len() {
        Seq::empty()
    } else if n == 1 {
        row(commands[0], width)
    } else {
        rows(commands, width, (n - 1) as nat) + seq!['\n'] + row(commands[n - 1], width)
    }
}

/// The text of the help: a title, the headings of the two columns, a rule
/// under each, and a row for each command, sorted by symbol.
pub open spec fn help_text(commands: Seq<CommandView>) -> Seq<char> {
    let width = column_width(commands, commands.len());
    "Available commands:\n\n  "@ + padded("Command"@, width) + "  "@ + "Description"@ + "\n  "@
        + padded(rule(width as int), width) + "  "@ + "-----------"@ + seq!['\n'] + rows(
        sorted_by_symbol(commands, commands.len()),
        width,
        commands.len(),
    ) + seq!['\n']
}

/// Whether the symbols of the commands stand in the order of strings.
pub open spec fn ordered_by_symbol(commands: Seq<CommandView>) -> bool {
    forall|i: int, j: int|
        0 <= i < j < commands.len() ==> text_le(
            (#[trigger] commands[i]).symbol,
            (#[trigger] commands[j]).symbol,
        )
}

/// Of two strings, one comes before or with the other.
pub proof fn lemma_text_le_total(a: Seq<char>, b: Seq<char>)
    ensures
        text_le(a, b) || text_le(b, a),
    decreases a.len(),
{
    if a.len() > 0 && b.len() > 0 && a[0] == b[0] {
        lemma_text_le_total(a.drop_first(), b.drop_first());
    }
}

/// The order of strings is transitive.
pub proof fn lemma_text_le_transitive(a: Seq<char>, b: Seq<char>, c: Seq<char>)
    requires
        text_le(a, b),
        text_le(b, c),
    ensures
        text_le(a, c),
    decreases a.len(),
{
    if a.len() > 0 && b.len() > 0 && c.len() > 0 && a[0] == b[0] && b[0] == c[0] {
        lemma_text_le_transitive(a.drop_first(), b.drop_first(), c.drop_first());
    }
}

/// Every command from `from` up to the insertion point comes before or with
/// the symbol, and the command at the insertion point comes after it.
pub proof fn lemma_insertion_point(sorted: Seq<CommandView>, symbol: Seq<char>, from: nat)
    requires
        from <= sorted.len(),
    ensures
        from <= insertion_point(sorted, symbol, from) <= sorted.len(),
        forall|i: int|
            from <= i < insertion_point(sorted, symbol, from) ==> text_le(
                (#[trigger] sorted[i]).symbol,
                symbol,
            ),
        insertion_point(sorted, symbol, from) < sorted.len() ==> !text_le(
            sorted[insertion_point(sorted, symbol, from) as int].symbol,
            symbol,
        ),
    decreases sorted.len() - from,
{
    if from < sorted.len() && text_le(sorted[from as int].symbol, symbol) {
        lemma_insertion_point(sorted, symbol, from + 1);
    }
}

/// The table of `help` holds every registered command exactly once, in the
/// order of the symbols: sorting keeps each command as often as it was
/// registered, and puts the symbols in order.
pub proof fn lemma_sorted_by_symbol(commands: Seq<CommandView>, n: nat)
    requires
        n <= commands.len(),
    ensures
        sorted_by_symbol(commands, n).len() == n,
        sorted_by_symbol(commands, n).to_multiset() == commands.take(n as int).to_multiset(),
        ordered_by_symbol(sorted_by_symbol(commands, n)),
    decreases n,
{
    if n == 0 {
        assert(commands.take(0) =~= Seq::<CommandView>::empty());
    } else {
        let before = sorted_by_symbol(commands, (n - 1) as nat);
        let c = commands[n - 1];
        lemma_sorted_by_symbol(commands, (n - 1) as nat);
        lemma_insertion_point(before, c.symbol, 0);
        let p = insertion_point(before, c.symbol, 0) as int;
        let after = before.insert(p, c);
        assert(after == sorted_by_symbol(commands, n));
        to_multiset_insert(before, p, c);
        to_multiset_build(commands.take(n - 1), c);
        assert(commands.take(n as int) =~= commands.take(n - 1).push(c));
        assert forall|i: int, j: int| 0 <= i < j < after.len() implies text_le(
            (#[trigger] after[i]).symbol,
            (#[trigger] after[j]).symbol,
        ) by {
            if j < p {
                assert(after[i] == before[i] && after[j] == before[j]);
            } else if j == p {
                assert(after[i] == before[i]);
            } else if i < p {
                assert(after[i] == before[i] && after[j] == before[j - 1]);
            } else if i == p {
                assert(after[j] == before[j - 1]);
                lemma_text_le_total(before[p].symbol, c.symbol);
                if j - 1 > p {
                    assert(text_le(before[p].symbol, before[j - 1].symbol));
                    lemma_text_le_transitive(c.symbol, before[p].symbol, before[j - 1].symbol);
                }
            } else {
                assert(after[i] == before[i - 1] && after[j] == before[j - 1]);
            }
        }
    }
}

/// The commands at the given places, in that order.
spec fn chosen(commands: Seq<CommandView>, order: Seq<usize>) -> Seq<CommandView> {
    Seq::new(order.len(), |i: int| commands[order[i] as int])
}

/// Whether `a` comes before or with `b` in the order of strings.
pub fn text_le_exec(a: &str, b: &str) -> (r: bool)
    ensures
        r == text_le(a@, b@),
{
    let x = chars_of(a);
    let y = chars_of(b);
    let mut i: usize = 0;
    assert(x@.skip(0) == x@ && y@.skip(0) == y@);
    while i < x.len() && i < y.len() && x[i] == y[i]
        invariant
            i <= x.len(),
            i <= y.len(),
            text_le(x@, y@) == text_le(x@.skip(i as int), y@.skip(i as int)),
        decreases x.len() - i,
    {
        assert(x@.skip(i as int).drop_first() == x@.skip(i + 1));
        assert(y@.skip(i as int).drop_first() == y@.skip(i + 1));
        i += 1;
    }
    if i == x.len() {
        true
    } else if i == y.len() {
        false
    } else {
        x[i] < y[i]
    }
}

/// The places of the commands in the order of their symbols.
fn sorted_places(commands: &[Rc<Command>]) -> (order: Vec<usize>)
    ensures
        order@.len() == commands@.len(),
        forall|i: int| 0 <= i < order@.len() ==> order@[i] < commands@.len(),
        chosen(views(commands@), order@) == sorted_by_symbol(views(commands@), commands@.len()),
{
    let ghost all = views(commands@);
    let mut order: Vec<usize> = Vec::new();
    let mut n: usize = 0;
    assert(chosen(all, order@) =~= sorted_by_symbol(all, 0));
    while n < commands.len()
        invariant
            n <= commands.len(),
            all == views(commands@),
            order@.len() == n,
            forall|i: int| 0 <= i < order@.len() ==> order@[i] < commands@.len(),
            chosen(all, order@) == sorted_by_symbol(all, n as nat),
        decreases commands.len() - n,
    {
        let ghost before = chosen(all, order@);
        let mut p: usize = 0;
        while p < order.len() && text_le_exec(
            commands[order[p]].symbol.as_str(),
            commands[n].symbol.as_str(),
        )
            invariant
                p <= order@.len(),
                n < commands.len(),
                all == views(commands@),
                before == chosen(all, order@),
                forall|i: int| 0 <= i < order@.len() ==> order@[i] < commands@.len(),
                insertion_point(before, all[n as int].symbol, 0) == insertion_point(
                    before,
                    all[n as int].symbol,
                    p as nat,
                ),
            decreases order@.len() - p,
        {
            p += 1;
        }
        order.insert(p, n);
        assert(chosen(all, order@) =~= before.insert(p as int, all[n as int]));
        n += 1;
    }
    order
}

/// Appends the characters of the text.
fn push_text(out: &mut Vec<char>, s: &str)
    ensures
        final(out)@ == old(out)@ + s@,
{
    for c in it: s.chars()
        invariant
            it.seq() == s@,
            out@ == old(out)@ + s@.take(it.index() as int),
    {
        out.push(c);
        assert(s@.take(it.index() + 1) == s@.take(it.index() as int).push(c));
    }
    assert(s@.take(s@.len() as int) == s@);
}

/// Appends `n` copies of the character.
fn push_repeated(out: &mut Vec<char>, c: char, n: usize)
    ensures
        final(out)@ == old(out)@ + Seq::new(n as nat, |i: int| c),
{
    let mut i: usize = 0;
    while i < n
        invariant
            i <= n,
            out@ == old(out)@ + Seq::new(i as nat, |j: int| c),
        decreases n - i,
    {
        out.push(c);
        i += 1;
        assert(out@ =~= old(out)@ + Seq::new(i as nat, |j: int| c));
    }
}

/// Appends the characters and the blanks that fill them up to the width.
fn push_padded(out: &mut Vec<char>, s: &Vec<char>, width: usize)
    ensures
        final(out)@ == old(out)@ + padded(s@, width),
{
    let mut i: usize = 0;
    while i < s.len()
        invariant
            i <= s.len(),
            out@ == old(out)@ + s@.take(i as int),
        decreases s.len() - i,
    {
        out.push(s[i]);
        i += 1;
        assert(s@.take(i as int) == s@.take(i - 1).push(s@[i - 1]));
    }
    assert(s@.take(s@.len() as int) == s@);
    let fill = if width > s.len() {
        width - s.len()
    } else {
        0
    };
    push_repeated(out, ' ', fill);
    assert(out@ =~= old(out)@ + padded(s@, width));
}

/// Appends the description of the command as the table shows it.
fn push_description(out: &mut Vec<char>, command: &Command)
    ensures
        final(out)@ == old(out)@ + shown_description(command@),
{
    let symbol = chars_of(command.symbol.as_str());
    let text = chars_of(command.description.as_str());
    let mut from: usize = 0;
    if symbol.len() <= text.len() {
        let mut k: usize = 0;
        while k < symbol.len() && symbol[k] == text[k]
            invariant
                k <= symbol.len() <= text.len(),
                text@.take(k as int) == symbol@.take(k as int),
            decreases symbol.len() - k,
        {
            k += 1;
            assert(text@.take(k as int) == text@.take(k - 1).push(text@[k - 1]));
            assert(symbol@.take(k as int) == symbol@.take(k - 1).push(symbol@[k - 1]));
        }
        if k == symbol.len() {
            assert(symbol@.take(k as int) == symbol@);
            from = k;
            while from < text.len() && (text[from] == ' ' || text[from] == '\t')
                invariant
                    k <= from <= text.len(),
                    trim_start(text@.skip(k as int)) == trim_start(text@.skip(from as int)),
                decreases text.len() - from,
            {
                assert(text@.skip(from as int).drop_first() == text@.skip(from + 1));
                from += 1;
            }
        } else {
            assert(text@.take(symbol@.len() as int)[k as int] != symbol@[k as int]);
        }
    }
    assert(shown_description(command@) == text@.skip(from as int)) by {
        assert(text@.skip(0) == text@);
    }
    let mut i: usize = from;
    while i < text.len()
        invariant
            from <= i <= text.len(),
            out@ == old(out)@ + text@.subrange(from as int, i as int),
        decreases text.len() - i,
    {
        out.push(text[i]);
        i += 1;
        assert(text@.subrange(from as int, i as int) == text@.subrange(from as int, i - 1).push(
            text@[i - 1],
        ));
    }
    assert(text@.subrange(from as int, text@.len() as int) == text@.skip(from as int));
}

/// The width of the first column.
fn width_of(commands: &[Rc<Command>]) -> (w: usize)
    ensures
        w == column_width(views(commands@), commands@.len()),
{
    let mut w: usize = 7;
    let mut i: usize = 0;
    while i < commands.len()
        invariant
            i <= commands.len(),
            w == column_width(views(commands@), i as nat),
        decreases commands.len() - i,
    {
        let own = commands[i].symbol.as_str().len();
        if own > w {
            w = own;
        }
        i += 1;
    }
    w
}

/// The text that `help` shows for the registered commands.
pub fn help_message(commands: &[Rc<Command>]) -> (r: String)
    ensures
        r@ == help_text(views(commands@)),
{
    let ghost all = views(commands@);
    let width = width_of(commands);
    let order = sorted_places(commands);
    let ghost sorted = sorted_by_symbol(all, commands@.len());
    let mut out: Vec<char> = Vec::new();
    push_text(&mut out, "Available commands:\n\n  ");
    let heading = chars_of("Command");
    push_padded(&mut out, &heading, width);
    push_text(&mut out, "  ");
    push_text(&mut out, "Description");
    push_text(&mut out, "\n  ");
    let mut line: Vec<char> = Vec::new();
    push_repeated(&mut line, '-', width);
    assert(line@ =~= rule(width as int));
    push_padded(&mut out, &line, width);
    push_text(&mut out, "  ");
    push_text(&mut out, "-----------");
    out.push('\n');
    let ghost head = out@;
    assert(head =~= "Available commands:\n\n  "@ + padded("Command"@, width) + "  "@
        + "Description"@ + "\n  "@ + padded(rule(width as int), width) + "  "@ + "-----------"@
        + seq!['\n']);
    let mut i: usize = 0;
    while i < order.len()
        invariant
            i <= order@.len(),
            order@.len() == commands@.len(),
            all == views(commands@),
            sorted == chosen(all, order@),
            forall|j: int| 0 <= j < order@.len() ==> order@[j] < commands@.len(),
            out@ == head + rows(sorted, width, i as nat),
        decreases order@.len() - i,
    {
        let ghost before = out@;
        if i > 0 {
            out.push('\n');
        }
        let command = &commands[order[i]];
        assert(command@ == sorted[i as int]);
        push_text(&mut out, "  ");
        let symbol = chars_of(command.symbol.as_str());
        push_padded(&mut out, &symbol, width);
        push_text(&mut out, "  ");
        push_description(&mut out, command);
        i += 1;
        assert(out@ =~= head + rows(sorted, width, i as nat));
    }
    out.push('\n');
    string_of(&out)
}

} // verus!
