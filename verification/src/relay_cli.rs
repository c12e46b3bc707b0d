//! The relay's command line: which section to open, what to do with it,
//! and how a streaming run reports a section that is not there yet.
//!
//! `--game <id>` names a known game and brings its section (and second
//! section, if its decoder needs one); `--section <name>` names any
//! section, which can then be dumped but never decoded; `--dump <file>`
//! asks for a dump instead of a stream.

use vstd::prelude::*;
use vstd::string::*;
use crate::games::{Game, GameView, game_table, games, lookup, by_id, opt_game, opt_text};
use crate::text::{join, join_strs, str_eq};
use crate::relay::RelayTelemetry;

verus! {

/// What `{:?}` prints for a string: the text quoted, with what needs
/// escaping escaped.
pub uninterp spec fn debug_text(s: Seq<char>) -> Seq<char>;

/// `<str as Debug>::fmt`, through `format!("{:?}")`. Its result is named,
/// not spelled out: std's escaping rules take pages.
#[verifier::external_body]
fn debug_quoted(s: &str) -> (r: String)
    ensures
        r@ == debug_text(s@),
{
    format!("{:?}", s)
}

/// The parsed command line.
pub struct Args {
    /// The section to open.
    pub section: Option<String>,
    /// The second section the game's decoder needs, when it needs one.
    pub aux: Option<String>,
    /// Where to write a dump, when one was asked for.
    pub dump: Option<String>,
    /// The known game that was named, if one was; `--section` alone
    /// leaves this empty, since a decoder is per game, not per section.
    pub game: Option<&'static str>,
    /// Notes to show the user about what the named games need installed.
    pub notes: Vec<String>,
}

/// [`Args`] with its texts as character sequences.
pub struct ArgsView {
    pub section: Option<Seq<char>>,
    pub aux: Option<Seq<char>>,
    pub dump: Option<Seq<char>>,
    pub game: Option<Seq<char>>,
    pub notes: Seq<Seq<char>>,
}

pub open spec fn opt_string(o: Option<String>) -> Option<Seq<char>> {
    match o {
        Some(s) => Some(s@),
        None => None,
    }
}

impl View for Args {
    type V = ArgsView;

    open spec fn view(&self) -> ArgsView {
        ArgsView {
            section: opt_string(self.section),
            aux: opt_string(self.aux),
            dump: opt_string(self.dump),
            game: opt_text(self.game),
            notes: self.notes@.map_values(|s: String| s@),
        }
    }
}

/// The ids of the known games, comma separated, in table order.
pub open spec fn known_ids() -> Seq<char> {
    join(game_table().map_values(|g: GameView| g.id), ", "@)
}

/// The error for an unknown game, given the game id as `{:?}` prints it.
pub open spec fn unknown_game_text(quoted: Seq<char>) -> Seq<char> {
    "unknown game "@ + quoted + " (known: "@ + known_ids() + ")"@
}

/// The error for an argument that is not an option, given it as `{:?}`
/// prints it.
pub open spec fn unknown_argument_text(quoted: Seq<char>) -> Seq<char> {
    "unknown argument "@ + quoted
}

/// The note shown for a game with a prerequisite.
pub open spec fn note_text(name: Seq<char>, prerequisite: Seq<char>) -> Seq<char> {
    "note for "@ + name + ": "@ + prerequisite
}

pub open spec fn no_args() -> ArgsView {
    ArgsView { section: None, aux: None, dump: None, game: None, notes: Seq::empty() }
}

/// The command line from position `i` on, parsed into what was parsed
/// before it (`st`). The empty error is a request for help.
pub open spec fn parse_from(argv: Seq<Seq<char>>, i: int, st: ArgsView) -> Result<ArgsView, Seq<char>>
    decreases argv.len() - i,
{
    if i < 0 || i >= argv.len() {
        Ok(st)
    } else if argv[i] == "--game"@ {
        if i + 1 >= argv.len() {
            Err("--game needs a game id"@)
        } else {
            match lookup(argv[i + 1]) {
                None => Err(unknown_game_text(debug_text(argv[i + 1]))),
                Some(g) => parse_from(
                    argv,
                    i + 2,
                    ArgsView {
                        section: Some(g.section),
                        aux: g.aux_section,
                        dump: st.dump,
                        game: Some(g.id),
                        notes: match g.prerequisite {
                            Some(p) => st.notes.push(note_text(g.name, p)),
                            None => st.notes,
                        },
                    },
                ),
            }
        }
    } else if argv[i] == "--section"@ {
        if i + 1 >= argv.len() {
            Err("--section needs a name"@)
        } else {
            parse_from(
                argv,
                i + 2,
                ArgsView {
                    section: Some(argv[i + 1]),
                    aux: None,
                    dump: st.dump,
                    game: None,
                    notes: st.notes,
                },
            )
        }
    } else if argv[i] == "--dump"@ {
        if i + 1 >= argv.len() {
            Err("--dump needs a file path"@)
        } else {
            parse_from(
                argv,
                i + 2,
                ArgsView {
                    section: st.section,
                    aux: st.aux,
                    dump: Some(argv[i + 1]),
                    game: st.game,
                    notes: st.notes,
                },
            )
        }
    } else if argv[i] == "--help"@ || argv[i] == "-h"@ {
        Err(Seq::empty())
    } else {
        Err(unknown_argument_text(debug_text(argv[i])))
    }
}

pub open spec fn parsed(argv: Seq<Seq<char>>) -> Result<ArgsView, Seq<char>> {
    parse_from(argv, 0, no_args())
}

/// `a` with its dump path, if it has none, set to `d`.
pub open spec fn dump_or(a: ArgsView, d: Seq<char>) -> ArgsView {
    ArgsView {
        section: a.section,
        aux: a.aux,
        dump: if a.dump is None {
            Some(d)
        } else {
            a.dump
        },
        game: a.game,
        notes: a.notes,
    }
}

/// `a` with its dump path set to `d`.
pub open spec fn with_dump(a: ArgsView, d: Seq<char>) -> ArgsView {
    ArgsView { section: a.section, aux: a.aux, dump: Some(d), game: a.game, notes: a.notes }
}

/// The option words are different words.
proof fn lemma_option_words_differ()
    ensures
        "--game"@ != "--section"@,
        "--game"@ != "--dump"@,
        "--game"@ != "--help"@,
        "--game"@ != "-h"@,
        "--section"@ != "--dump"@,
        "--section"@ != "--help"@,
        "--section"@ != "-h"@,
        "--dump"@ != "--help"@,
        "--dump"@ != "-h"@,
{
    reveal_strlit("--dump");
    reveal_strlit("--game");
    reveal_strlit("--section");
    reveal_strlit("--help");
    reveal_strlit("-h");
    assert("--game"@[2] != "--dump"@[2]);
    assert("--game"@[2] != "--help"@[2]);
    assert("--dump"@[2] != "--help"@[2]);
    assert("-h"@.len() == 2);
    assert("--section"@.len() == 9);
}

/// The state after `--game` named `g`.
spec fn game_state(st: ArgsView, g: GameView) -> ArgsView {
    ArgsView {
        section: Some(g.section),
        aux: g.aux_section,
        dump: st.dump,
        game: Some(g.id),
        notes: match g.prerequisite {
            Some(p) => st.notes.push(note_text(g.name, p)),
            None => st.notes,
        },
    }
}

/// The state after `--section name`.
spec fn section_state(st: ArgsView, name: Seq<char>) -> ArgsView {
    ArgsView { section: Some(name), aux: None, dump: st.dump, game: None, notes: st.notes }
}

/// Parsing does not depend on what comes before the position it starts at.
proof fn lemma_parse_shift(pre: Seq<Seq<char>>, argv: Seq<Seq<char>>, i: int, st: ArgsView)
    requires
        0 <= i,
    ensures
        parse_from(pre + argv, pre.len() + i, st) == parse_from(argv, i, st),
    decreases argv.len() - i,
{
    lemma_option_words_differ();
    let full = pre + argv;
    let j = pre.len() + i;
    if i < argv.len() {
        assert(full[j] == argv[i]);
        if i + 1 < argv.len() {
            assert(full[j + 1] == argv[i + 1]);
            assert(j + 2 == pre.len() + (i + 2));
            if argv[i] == "--game"@ {
                if let Some(g) = lookup(argv[i + 1]) {
                    lemma_parse_shift(pre, argv, i + 2, game_state(st, g));
                }
            } else if argv[i] == "--section"@ {
                lemma_parse_shift(pre, argv, i + 2, section_state(st, argv[i + 1]));
            } else if argv[i] == "--dump"@ {
                lemma_parse_shift(pre, argv, i + 2, with_dump(st, argv[i + 1]));
            }
        }
    }
}

/// A dump path already chosen stays chosen.
proof fn lemma_dump_stays(argv: Seq<Seq<char>>, i: int, st: ArgsView)
    requires
        0 <= i,
        st.dump is Some,
        parse_from(argv, i, st) is Ok,
    ensures
        parse_from(argv, i, st)->Ok_0.dump is Some,
    decreases argv.len() - i,
{
    lemma_option_words_differ();
    if 0 <= i < argv.len() && i + 1 < argv.len() {
        if argv[i] == "--game"@ {
            if let Some(g) = lookup(argv[i + 1]) {
                lemma_dump_stays(argv, i + 2, game_state(st, g));
            }
        } else if argv[i] == "--section"@ {
            lemma_dump_stays(argv, i + 2, section_state(st, argv[i + 1]));
        } else if argv[i] == "--dump"@ {
            lemma_dump_stays(argv, i + 2, with_dump(st, argv[i + 1]));
        }
    }
}

/// A dump path chosen before the rest of the line is kept unless the rest
/// chooses another.
proof fn lemma_dump_carried(argv: Seq<Seq<char>>, i: int, st: ArgsView, d: Seq<char>)
    requires
        0 <= i,
        st.dump is None,
    ensures
        parse_from(argv, i, with_dump(st, d)) == match parse_from(argv, i, st) {
            Ok(a) => Ok::<ArgsView, Seq<char>>(dump_or(a, d)),
            Err(e) => Err(e),
        },
    decreases argv.len() - i,
{
    lemma_option_words_differ();
    let sd = with_dump(st, d);
    if 0 <= i < argv.len() && i + 1 < argv.len() {
        if argv[i] == "--game"@ {
            if let Some(g) = lookup(argv[i + 1]) {
                assert(game_state(sd, g) == with_dump(game_state(st, g), d));
                lemma_dump_carried(argv, i + 2, game_state(st, g), d);
            }
        } else if argv[i] == "--section"@ {
            assert(section_state(sd, argv[i + 1]) == with_dump(section_state(st, argv[i + 1]), d));
            lemma_dump_carried(argv, i + 2, section_state(st, argv[i + 1]), d);
        } else if argv[i] == "--dump"@ {
            assert(with_dump(sd, argv[i + 1]) == with_dump(st, argv[i + 1]));
            if parse_from(argv, i + 2, with_dump(st, argv[i + 1])) is Ok {
                lemma_dump_stays(argv, i + 2, with_dump(st, argv[i + 1]));
            }
        }
    }
}

/// A command line that parses from `i` goes on, in a longer line, from
/// where it ended, in the state it ended in.
proof fn lemma_parse_then_more(argv: Seq<Seq<char>>, suf: Seq<Seq<char>>, i: int, st: ArgsView)
    requires
        0 <= i <= argv.len(),
        parse_from(argv, i, st) is Ok,
    ensures
        parse_from(argv + suf, i, st) == parse_from(argv + suf, argv.len() as int, parse_from(argv, i, st)->Ok_0),
    decreases argv.len() - i,
{
    lemma_option_words_differ();
    let full = argv + suf;
    if i < argv.len() {
        assert(full[i] == argv[i]);
        if i + 1 < argv.len() {
            assert(full[i + 1] == argv[i + 1]);
            if argv[i] == "--game"@ {
                if let Some(g) = lookup(argv[i + 1]) {
                    lemma_parse_then_more(argv, suf, i + 2, game_state(st, g));
                }
            } else if argv[i] == "--section"@ {
                lemma_parse_then_more(argv, suf, i + 2, section_state(st, argv[i + 1]));
            } else if argv[i] == "--dump"@ {
                lemma_parse_then_more(argv, suf, i + 2, with_dump(st, argv[i + 1]));
            }
        }
    }
}

/// Where `--dump` stands on the command line does not matter: putting
/// `--dump p` in front of a command line parses as that line does, with
/// `p` as the dump path unless the line names another; putting it after a
/// line that parses gives the same result with `p` as the dump path.
pub proof fn lemma_dump_anywhere(argv: Seq<Seq<char>>, p: Seq<char>)
    ensures
        parsed(seq!["--dump"@, p] + argv) == match parsed(argv) {
            Ok(a) => Ok::<ArgsView, Seq<char>>(dump_or(a, p)),
            Err(e) => Err(e),
        },
        parsed(argv) is Ok ==> parsed(argv + seq!["--dump"@, p]) == Ok::<ArgsView, Seq<char>>(
            with_dump(parsed(argv)->Ok_0, p),
        ),
{
    reveal_strlit("--dump");
    reveal_strlit("--game");
    reveal_strlit("--section");
    reveal_strlit("--help");
    reveal_strlit("-h");
    lemma_option_words_differ();
    let pre = seq!["--dump"@, p];
    let full = pre + argv;
    assert(full[0] == "--dump"@);
    assert(full[1] == p);
    lemma_parse_shift(pre, argv, 0, with_dump(no_args(), p));
    lemma_dump_carried(argv, 0, no_args(), p);
    assert(parsed(full) == parse_from(full, 2, with_dump(no_args(), p)));
    if parsed(argv) is Ok {
        let suf = seq!["--dump"@, p];
        let a = parsed(argv)->Ok_0;
        lemma_parse_then_more(argv, suf, 0, no_args());
        lemma_parse_shift(argv, suf, 0, a);
        assert(suf[0] == "--dump"@);
        assert(parse_from(suf, 0, a) == parse_from(suf, 2, with_dump(a, p)));
    }
}

/// The last of `--game` and `--section` decides what is read: after a
/// line that parses, `--game id` for a known game selects that game's
/// sections and decoder, and `--section name` selects that section alone,
/// with no second section and no decoder; a dump path is kept either way.
pub proof fn lemma_last_source_wins(argv: Seq<Seq<char>>, id: Seq<char>, name: Seq<char>)
    requires
        parsed(argv) is Ok,
    ensures
        lookup(id) matches Some(g) ==> parsed(argv + seq!["--game"@, id]) matches Ok(a) && a.section == Some(
            g.section,
        ) && a.aux == g.aux_section && a.game == Some(g.id) && a.dump == parsed(argv)->Ok_0.dump,
        lookup(id) is None ==> parsed(argv + seq!["--game"@, id]) is Err,
        parsed(argv + seq!["--section"@, name]) == Ok::<ArgsView, Seq<char>>(
            ArgsView {
                section: Some(name),
                aux: None,
                dump: parsed(argv)->Ok_0.dump,
                game: None,
                notes: parsed(argv)->Ok_0.notes,
            },
        ),
{
    lemma_option_words_differ();
    let a = parsed(argv)->Ok_0;
    let sg = seq!["--game"@, id];
    let ss = seq!["--section"@, name];
    lemma_parse_then_more(argv, sg, 0, no_args());
    lemma_parse_shift(argv, sg, 0, a);
    lemma_parse_then_more(argv, ss, 0, no_args());
    lemma_parse_shift(argv, ss, 0, a);
    assert(sg[0] == "--game"@ && sg[1] == id);
    assert(ss[0] == "--section"@ && ss[1] == name);
    if let Some(g) = lookup(id) {
        assert(parse_from(sg, 0, a) == parse_from(sg, 2, game_state(a, g)));
    }
    assert(parse_from(ss, 0, a) == parse_from(ss, 2, section_state(a, name)));
}

/// The ids of the known games, in table order.
fn known_game_ids() -> (r: Vec<&'static str>)
    ensures
        r@.map_values(|s: &str| s@) == game_table().map_values(|g: GameView| g.id),
{
    let table = games();
    let ghost views = table@.map_values(|g: Game| g@);
    let mut out: Vec<&'static str> = Vec::new();
    let mut i: usize = 0;
    while i < table.len()
        invariant
            i <= table@.len(),
            views == table@.map_values(|g: Game| g@),
            views == game_table(),
            out@.len() == i,
            forall|j: int| 0 <= j < i ==> #[trigger] out@[j]@ == game_table()[j].id,
        decreases table@.len() - i,
    {
        assert(views[i as int] == table@[i as int]@);
        out.push(table[i].id);
        i = i + 1;
    }
    assert(out@.map_values(|s: &str| s@) =~= game_table().map_values(|g: GameView| g.id));
    out
}

/// The error for an unknown game, given the id as `{:?}` prints it.
pub fn unknown_game_message(quoted: &str) -> (r: String)
    ensures
        r@ == unknown_game_text(quoted@),
{
    let ids = known_game_ids();
    let known = join_strs(&ids, ", ");
    let mut s = String::from_str("unknown game ");
    s.append(quoted);
    s.append(" (known: ");
    s.append(known.as_str());
    s.append(")");
    s
}

/// The error for an argument that is not an option, given it as `{:?}`
/// prints it.
pub fn unknown_argument_message(quoted: &str) -> (r: String)
    ensures
        r@ == unknown_argument_text(quoted@),
{
    let mut s = String::from_str("unknown argument ");
    s.append(quoted);
    s
}

fn note_for(name: &str, prerequisite: &str) -> (r: String)
    ensures
        r@ == note_text(name@, prerequisite@),
{
    let mut s = String::from_str("note for ");
    s.append(name);
    s.append(": ");
    s.append(prerequisite);
    s
}

fn copy_opt(o: Option<&'static str>) -> (r: Option<String>)
    ensures
        opt_string(r) == opt_text(o),
{
    match o {
        Some(x) => Some(String::from_str(x)),
        None => None,
    }
}

/// Parse the relay's arguments (the program name excluded). An empty
/// error asks for the usage text alone.
pub fn parse_args(argv: &[String]) -> (r: Result<Args, String>)
    ensures
        ({
            let want = parsed(argv@.map_values(|s: String| s@));
            match r {
                Ok(a) => want == Ok::<ArgsView, Seq<char>>(a@),
                Err(e) => want == Err::<ArgsView, Seq<char>>(e@),
            }
        }),
{
    let ghost views = argv@.map_values(|s: String| s@);
    let mut section: Option<String> = None;
    let mut aux: Option<String> = None;
    let mut dump: Option<String> = None;
    let mut game: Option<&'static str> = None;
    let mut notes: Vec<String> = Vec::new();
    let mut i: usize = 0;
    assert(notes@.map_values(|s: String| s@) =~= Seq::<Seq<char>>::empty());
    while i < argv.len()
        invariant
            i <= argv@.len(),
            views == argv@.map_values(|s: String| s@),
            parsed(views) == parse_from(
                views,
                i as int,
                ArgsView {
                    section: opt_string(section),
                    aux: opt_string(aux),
                    dump: opt_string(dump),
                    game: opt_text(game),
                    notes: notes@.map_values(|s: String| s@),
                },
            ),
        decreases argv@.len() - i,
    {
        let ghost st = ArgsView {
            section: opt_string(section),
            aux: opt_string(aux),
            dump: opt_string(dump),
            game: opt_text(game),
            notes: notes@.map_values(|s: String| s@),
        };
        let a = argv[i].as_str();
        assert(a@ == views[i as int]);
        if str_eq(a, "--game") {
            if i + 1 >= argv.len() {
                return Err(String::from_str("--game needs a game id"));
            }
            let id = argv[i + 1].as_str();
            assert(id@ == views[i + 1]);
            match by_id(id) {
                None => {
                    let q = debug_quoted(id);
                    return Err(unknown_game_message(q.as_str()));
                },
                Some(g) => {
                    let ghost old_notes = notes@;
                    match g.prerequisite {
                        Some(p) => {
                            notes.push(note_for(g.name, p));
                            assert(notes@.map_values(|s: String| s@) =~= st.notes.push(
                                note_text(g.name@, p@),
                            ));
                        },
                        None => {},
                    }
                    section = Some(String::from_str(g.section));
                    aux = copy_opt(g.aux_section);
                    game = Some(g.id);
                },
            }
            i = i + 2;
        } else if str_eq(a, "--section") {
            if i + 1 >= argv.len() {
                return Err(String::from_str("--section needs a name"));
            }
            section = Some(argv[i + 1].clone());
            aux = None;
            game = None;
            i = i + 2;
        } else if str_eq(a, "--dump") {
            if i + 1 >= argv.len() {
                return Err(String::from_str("--dump needs a file path"));
            }
            dump = Some(argv[i + 1].clone());
            i = i + 2;
        } else if str_eq(a, "--help") || str_eq(a, "-h") {
            return Err(String::new());
        } else {
            let q = debug_quoted(a);
            return Err(unknown_argument_message(q.as_str()));
        }
    }
    Ok(Args { section, aux, dump, game, notes })
}

/// The prerequisite notes of the games named from position `i` on, added
/// to `notes`, up to where parsing stops: the end, or the first argument
/// that ends it (a request for help or an error).
pub open spec fn notes_from(argv: Seq<Seq<char>>, i: int, notes: Seq<Seq<char>>) -> Seq<Seq<char>>
    decreases argv.len() - i,
{
    if i < 0 || i >= argv.len() {
        notes
    } else if argv[i] == "--game"@ {
        if i + 1 >= argv.len() {
            notes
        } else {
            match lookup(argv[i + 1]) {
                None => notes,
                Some(g) => notes_from(
                    argv,
                    i + 2,
                    match g.prerequisite {
                        Some(p) => notes.push(note_text(g.name, p)),
                        None => notes,
                    },
                ),
            }
        }
    } else if argv[i] == "--section"@ || argv[i] == "--dump"@ {
        if i + 1 >= argv.len() {
            notes
        } else {
            notes_from(argv, i + 2, notes)
        }
    } else {
        notes
    }
}

/// The notes on what the games named on the command line need installed,
/// in order, for every game named before parsing stops, whether or not the
/// parse then succeeds.
pub fn prerequisite_notes(argv: &[String]) -> (r: Vec<String>)
    ensures
        r@.map_values(|s: String| s@) == notes_from(argv@.map_values(|s: String| s@), 0, Seq::empty()),
{
    let ghost views = argv@.map_values(|s: String| s@);
    let mut notes: Vec<String> = Vec::new();
    let mut i: usize = 0;
    assert(notes@.map_values(|s: String| s@) =~= Seq::<Seq<char>>::empty());
    while i < argv.len()
        invariant
            i <= argv@.len(),
            views == argv@.map_values(|s: String| s@),
            notes_from(views, 0, Seq::empty()) == notes_from(views, i as int, notes@.map_values(|s: String| s@)),
        decreases argv@.len() - i,
    {
        let a = argv[i].as_str();
        assert(a@ == views[i as int]);
        if str_eq(a, "--game") {
            if i + 1 >= argv.len() {
                return notes;
            }
            let id = argv[i + 1].as_str();
            assert(id@ == views[i + 1]);
            match by_id(id) {
                None => {
                    return notes;
                },
                Some(g) => {
                    let ghost st = notes@.map_values(|s: String| s@);
                    match g.prerequisite {
                        Some(p) => {
                            notes.push(note_for(g.name, p));
                            assert(notes@.map_values(|s: String| s@) =~= st.push(note_text(g.name@, p@)));
                        },
                        None => {},
                    }
                },
            }
            i = i + 2;
        } else if str_eq(a, "--section") || str_eq(a, "--dump") {
            if i + 1 >= argv.len() {
                return notes;
            }
            i = i + 2;
        } else {
            return notes;
        }
    }
    notes
}

proof fn lemma_notes_from(argv: Seq<Seq<char>>, i: int, st: ArgsView)
    requires
        parse_from(argv, i, st) is Ok,
    ensures
        parse_from(argv, i, st)->Ok_0.notes == notes_from(argv, i, st.notes),
    decreases argv.len() - i,
{
    if 0 <= i < argv.len() && i + 1 < argv.len() {
        if argv[i] == "--game"@ {
            match lookup(argv[i + 1]) {
                Some(g) => lemma_notes_from(
                    argv,
                    i + 2,
                    ArgsView {
                        section: Some(g.section),
                        aux: g.aux_section,
                        dump: st.dump,
                        game: Some(g.id),
                        notes: match g.prerequisite {
                            Some(p) => st.notes.push(note_text(g.name, p)),
                            None => st.notes,
                        },
                    },
                ),
                None => {},
            }
        } else if argv[i] == "--section"@ {
            lemma_notes_from(
                argv,
                i + 2,
                ArgsView { section: Some(argv[i + 1]), aux: None, dump: st.dump, game: None, notes: st.notes },
            );
        } else if argv[i] == "--dump"@ {
            lemma_notes_from(
                argv,
                i + 2,
                ArgsView {
                    section: st.section,
                    aux: st.aux,
                    dump: Some(argv[i + 1]),
                    game: st.game,
                    notes: st.notes,
                },
            );
        }
    }
}

/// When the command line parses, the notes it collects are exactly the
/// prerequisite notes of the games it names.
pub proof fn lemma_parsed_notes_are_the_prerequisite_notes(argv: Seq<Seq<char>>)
    requires
        parsed(argv) is Ok,
    ensures
        parsed(argv)->Ok_0.notes == notes_from(argv, 0, Seq::empty()),
{
    lemma_notes_from(argv, 0, no_args());
}

/// What a run of the relay does.
pub enum Mode {
    /// No section was named: show the usage text.
    Usage,
    /// Write the section's bytes to `path`.
    Dump { section: String, path: String },
    /// Stream the named game's decoded telemetry from `section` (and
    /// `aux`, when its decoder needs a second section).
    Stream { section: String, aux: Option<String>, game: &'static str },
    /// Streaming was asked for a section with no decoder yet: a dump from
    /// a live session is what can be taken.
    NotBuilt { section: String },
}

/// Whether `game` names a known game that has a decoder.
pub open spec fn decodable_game(game: Option<Seq<char>>) -> bool {
    &&& game is Some
    &&& lookup(game->0) is Some
    &&& lookup(game->0)->0.decodable
}

/// Decide what the parsed command line asks for.
pub fn choose_mode(args: Args) -> (m: Mode)
    ensures
        args@.section is None ==> m is Usage,
        args@.section is Some && args@.dump is Some ==> (m matches Mode::Dump { section, path } && section@
            == args@.section->0 && path@ == args@.dump->0),
        args@.section is Some && args@.dump is None && decodable_game(args@.game) ==> (m matches Mode::Stream {
            section,
            aux,
            game,
        } && section@ == args@.section->0 && opt_string(aux) == args@.aux && game@ == args@.game->0),
        args@.section is Some && args@.dump is None && !decodable_game(args@.game) ==> (m matches Mode::NotBuilt {
            section,
        } && section@ == args@.section->0),
{
    let Args { section, aux, dump, game, notes: _ } = args;
    let section = match section {
        None => {
            return Mode::Usage;
        },
        Some(s) => s,
    };
    if let Some(path) = dump {
        return Mode::Dump { section, path };
    }
    match game {
        Some(id) => match by_id(id) {
            Some(g) => {
                if g.decodable {
                    Mode::Stream { section, aux, game: id }
                } else {
                    Mode::NotBuilt { section }
                }
            },
            None => Mode::NotBuilt { section },
        },
        None => Mode::NotBuilt { section },
    }
}

/// What one tick of a stream decoded.
#[derive(Debug, Clone, Copy, PartialEq, Eq)]
pub enum TickSample {
    /// A sample to send.
    Sample(RelayTelemetry),
    /// No sample this tick: a menu, a replay or a paused session, or the
    /// game's second section was not readable.
    Nothing,
    /// This build has no decoder for the game.
    NoDecoder,
}

/// Decode one tick of `game`'s sections: `section` as read, and the
/// second section if the game has one and it could be read. Assetto Corsa
/// is decoded from both; a game without a decoder in this build gives
/// [`TickSample::NoDecoder`].
pub fn decode_tick(game: &str, section: &[u8], aux: Option<&[u8]>) -> (r: TickSample)
    ensures
        game@ == crate::assettocorsa::ID@ ==> match aux {
            None => r == TickSample::Nothing,
            Some(statics) => match crate::assettocorsa::decoded(section@, statics@) {
                Some(s) => r == TickSample::Sample(s),
                None => r == TickSample::Nothing,
            },
        },
        game@ != crate::assettocorsa::ID@ ==> r == TickSample::NoDecoder,
{
    if !str_eq(game, crate::assettocorsa::ID) {
        return TickSample::NoDecoder;
    }
    match aux {
        None => TickSample::Nothing,
        Some(statics) => match crate::assettocorsa::decode(section, statics) {
            Some(s) => TickSample::Sample(s),
            None => TickSample::Nothing,
        },
    }
}

/// Whether a streaming run has already said that its section is not
/// readable. The game not being up yet is the normal case at startup, so
/// it is said once and the run keeps trying.
pub struct StreamState {
    pub warned: bool,
}

impl StreamState {
    pub fn new() -> (r: StreamState)
        ensures
            !r.warned,
    {
        StreamState { warned: false }
    }

    /// A read of the section failed: whether to say so now. It is said on
    /// the first failure after a start or a successful read, and not again
    /// until a read succeeds.
    pub fn read_failed(&mut self) -> (say: bool)
        ensures
            say == !old(self).warned,
            final(self).warned,
    {
        let say = !self.warned;
        self.warned = true;
        say
    }

    /// A read of the section succeeded.
    pub fn read_succeeded(&mut self)
        ensures
            !final(self).warned,
    {
        self.warned = false;
    }
}

} // verus!
