//! The command palette: which commands it lists for what the user typed, how
//! each entry reads, and what closing it means.
use crate::text::{chars_of, contains_text, string_of, text_contains};
use crate::ui::command::{all_commands, command_hint, command_label, palette_commands, Command};
use vstd::prelude::*;

verus! {

/// What `str::to_lowercase` (std) returns for `s`.
pub uninterp spec fn lowercase(s: Seq<char>) -> Seq<char>;

/// `str::to_lowercase` (std): the lower-case form of `s` under Unicode's
/// case mapping.
///
/// Claims: the result is a function of `s` alone; the case mapping itself is
/// named, not restated.
#[verifier::external_body]
fn to_lowercase(s: &str) -> (r: String)
    ensures
        r@ == lowercase(s@),
{
    s.to_lowercase()
}

/// The palette lists `c` for `query`: the query is empty, or the command's
/// label contains it, both taken in lower case.
pub open spec fn listed(query: Seq<char>, c: Command) -> bool {
    query.len() == 0 || contains_text(lowercase(command_label(c)), lowercase(query))
}

/// The commands of `cmds` the palette lists for `query`, in their order.
pub open spec fn listing(cmds: Seq<Command>, query: Seq<char>) -> Seq<Command>
    decreases cmds.len(),
{
    if cmds.len() == 0 {
        seq![]
    } else {
        let rest = listing(cmds.drop_last(), query);
        if listed(query, cmds.last()) {
            rest.push(cmds.last())
        } else {
            rest
        }
    }
}

/// How an entry reads: the label, then the shortcut in brackets when the
/// command has a non-empty one.
pub open spec fn entry_text(c: Command) -> Seq<char> {
    match command_hint(c) {
        Some(h) => if h.len() == 0 {
            command_label(c)
        } else {
            command_label(c) + "  ("@ + h + ")"@
        },
        None => command_label(c),
    }
}

/// The command palette: whether it is shown, and what has been typed into it.
#[derive(Debug, Clone)]
pub struct CommandPalette {
    pub open: bool,
    pub query: String,
}

impl Default for CommandPalette {
    /// Closed, with nothing typed.
    fn default() -> (r: CommandPalette)
        ensures
            !r.open,
            r.query@ == Seq::<char>::empty(),
    {
        CommandPalette { open: false, query: String::new() }
    }
}

impl CommandPalette {
    /// The commands the palette lists for what has been typed, in palette
    /// order.
    pub fn listed_commands(&self) -> (r: Vec<Command>)
        ensures
            r@ == listing(palette_commands(), self.query@),
    {
        let commands = all_commands();
        let typed = chars_of(self.query.as_str());
        let empty = typed.len() == 0;
        let q = to_lowercase(self.query.as_str());
        let qc = chars_of(q.as_str());
        let mut out: Vec<Command> = Vec::new();
        let mut i: usize = 0;
        proof {
            assert(commands@.take(0) =~= Seq::<Command>::empty());
        }
        while i < commands.len()
            invariant
                commands@ == palette_commands(),
                i <= commands@.len(),
                empty == (self.query@.len() == 0),
                qc@ == lowercase(self.query@),
                out@ == listing(commands@.take(i as int), self.query@),
            decreases commands@.len() - i,
        {
            let c = commands[i];
            let keep = if empty {
                true
            } else {
                let label = c.label();
                let l = to_lowercase(label.as_str());
                let lc = chars_of(l.as_str());
                text_contains(lc.as_slice(), qc.as_slice())
            };
            proof {
                assert(commands@.take(i + 1).drop_last() =~= commands@.take(i as int));
                assert(commands@.take(i + 1).last() == c);
            }
            if keep {
                out.push(c);
            }
            i = i + 1;
        }
        proof {
            assert(commands@.take(commands@.len() as int) =~= commands@);
        }
        out
    }
}

/// How the palette's entry for `c` reads.
pub fn entry_label(c: Command) -> (r: String)
    ensures
        r@ == entry_text(c),
{
    let label = c.label();
    match c.shortcut_hint() {
        Some(h) => {
            let mut hint = chars_of(h);
            if hint.len() == 0 {
                label
            } else {
                let mut t = chars_of(label.as_str());
                let mut open = chars_of("  (");
                let mut close = chars_of(")");
                t.append(&mut open);
                t.append(&mut hint);
                t.append(&mut close);
                string_of(t.as_slice())
            }
        },
        None => label,
    }
}

/// What one showing of the palette hands back: nothing while it is closed;
/// the command picked, if any; and `Escape` when the user closed it without
/// picking one.
pub open spec fn outcome(open_before: bool, open_after: bool, picked: Option<Command>) -> Option<Command> {
    if !open_before {
        None
    } else if !open_after && picked is None {
        Some(Command::Escape)
    } else {
        picked
    }
}

/// The command one showing of the palette hands back, given whether it was
/// open before, whether it is still open after, and what was clicked.
pub fn palette_outcome(open_before: bool, open_after: bool, picked: Option<Command>) -> (r: Option<
    Command,
>)
    ensures
        r == outcome(open_before, open_after, picked),
{
    if !open_before {
        return None;
    }
    if !open_after && picked.is_none() {
        Some(Command::Escape)
    } else {
        picked
    }
}

/// With nothing typed the palette lists every command, in order; otherwise
/// it lists exactly the commands whose lower-cased label contains the
/// lower-cased query, never reordering them.
pub proof fn lemma_listing(cmds: Seq<Command>, query: Seq<char>, c: Command)
    ensures
        listing(cmds, Seq::empty()) == cmds,
        listing(cmds, query).len() <= cmds.len(),
        listing(cmds, query).contains(c) <==> (cmds.contains(c) && (query.len() == 0 || contains_text(
            lowercase(command_label(c)),
            lowercase(query),
        ))),
    decreases cmds.len(),
{
    if cmds.len() > 0 {
        let d = cmds.drop_last();
        lemma_listing(d, query, c);
        assert(cmds =~= d.push(cmds.last()));
        if listing(cmds, query).contains(c) && !listing(d, query).contains(c) {
            assert(c == cmds.last());
            assert(cmds[cmds.len() - 1] == c);
        }
        if cmds.contains(c) && !d.contains(c) {
            let k = choose|k: int| 0 <= k < cmds.len() && cmds[k] == c;
            if k < cmds.len() - 1 {
                assert(d[k] == c);
            }
            assert(c == cmds.last());
            if query.len() == 0 || contains_text(lowercase(command_label(c)), lowercase(query)) {
                let l = listing(cmds, query);
                assert(l[l.len() - 1] == c);
            }
        }
        if listing(d, query).contains(c) {
            let l = listing(cmds, query);
            let k = choose|k: int| 0 <= k < listing(d, query).len() && listing(d, query)[k] == c;
            assert(l[k] == c);
        }
        if d.contains(c) {
            let k = choose|k: int| 0 <= k < d.len() && d[k] == c;
            assert(cmds[k] == c);
        }
    }
}

/// A command picked in the open palette is handed back unchanged, whether or
/// not the palette stays open; a closed palette hands back nothing; closing
/// it without a pick hands back `Escape`, and keeping it open without a pick
/// hands back nothing.
pub proof fn lemma_palette_outcome(open_after: bool, picked: Option<Command>, c: Command)
    ensures
        outcome(true, open_after, Some(c)) == Some(c),
        outcome(false, open_after, picked) is None,
        outcome(true, false, None) == Some(Command::Escape),
        outcome(true, true, None) is None,
        outcome(true, open_after, picked) is Some <==> (picked is Some || !open_after),
{
}

} // verus!
