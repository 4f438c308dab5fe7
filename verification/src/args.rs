//! Classifying the command line.
//!
//! The caller hands over the raw arguments as byte strings, in order;
//! this module decides what each one means: an option, the value of
//! the option before it, or a search pattern.  The grammar is a fold
//! over the list, written down as spec functions, and the executable
//! parser is proved to follow it exactly.

use vstd::prelude::*;

use crate::codec::bytes_eq;

verus! {

pub const DASH: u8 = 45;

/// The bytes `--usage`.
pub open spec fn flag_usage() -> Seq<u8> {
    seq![DASH, DASH, 117u8, 115u8, 97u8, 103u8, 101u8]
}

/// The bytes `--help`.
pub open spec fn flag_help() -> Seq<u8> {
    seq![DASH, DASH, 104u8, 101u8, 108u8, 112u8]
}

/// The bytes `--editor`.
pub open spec fn flag_editor() -> Seq<u8> {
    seq![DASH, DASH, 101u8, 100u8, 105u8, 116u8, 111u8, 114u8]
}

/// The bytes `--set-editor`.
pub open spec fn flag_set_editor() -> Seq<u8> {
    seq![DASH, DASH, 115u8, 101u8, 116u8, DASH, 101u8, 100u8, 105u8, 116u8, 111u8, 114u8]
}

/// The bytes `--include-extensions`.
pub open spec fn flag_include_extensions() -> Seq<u8> {
    seq![
        DASH,
        DASH,
        105u8,
        110u8,
        99u8,
        108u8,
        117u8,
        100u8,
        101u8,
        DASH,
        101u8,
        120u8,
        116u8,
        101u8,
        110u8,
        115u8,
        105u8,
        111u8,
        110u8,
        115u8,
    ]
}

/// The bytes `--dry-run`.
pub open spec fn flag_dry_run() -> Seq<u8> {
    seq![DASH, DASH, 100u8, 114u8, 121u8, DASH, 114u8, 117u8, 110u8]
}

/// The bytes `--`.
pub open spec fn flag_bare() -> Seq<u8> {
    seq![DASH, DASH]
}

/// The bytes `-e`.
pub open spec fn flag_e() -> Seq<u8> {
    seq![DASH, 101u8]
}

/// The bytes `-x`.
pub open spec fn flag_x() -> Seq<u8> {
    seq![DASH, 120u8]
}

/// An argument that opens with `--`.
pub open spec fn starts_dash_dash(a: Seq<u8>) -> bool {
    a.len() >= 2 && a[0] == DASH && a[1] == DASH
}

/// An argument that opens with `-`.
pub open spec fn starts_dash(a: Seq<u8>) -> bool {
    a.len() >= 1 && a[0] == DASH
}

/// What one invocation asked for, with every piece of text as bytes.
#[derive(Debug)]
pub struct Arguments {
    pub patterns: Vec<Vec<u8>>,
    pub editor_executable: Option<Vec<u8>>,
    pub set_editor_executable: Option<Vec<u8>>,
    pub include_extensions: bool,
    pub dry_run: bool,
    pub usage: bool,
}

/// The same request, as contracts speak of it.
pub struct ArgumentsModel {
    pub patterns: Seq<Seq<u8>>,
    pub editor_executable: Option<Seq<u8>>,
    pub set_editor_executable: Option<Seq<u8>>,
    pub include_extensions: bool,
    pub dry_run: bool,
    pub usage: bool,
}

impl View for Arguments {
    type V = ArgumentsModel;

    open spec fn view(&self) -> ArgumentsModel {
        ArgumentsModel {
            patterns: self.patterns@.map_values(|p: Vec<u8>| p@),
            editor_executable: match self.editor_executable {
                Some(e) => Some(e@),
                None => None,
            },
            set_editor_executable: match self.set_editor_executable {
                Some(e) => Some(e@),
                None => None,
            },
            include_extensions: self.include_extensions,
            dry_run: self.dry_run,
            usage: self.usage,
        }
    }
}

/// The fold's running state: what has been gathered, whether `--`
/// turned the rest into patterns, and whether the next argument is the
/// value of `--editor`/`-e` or `--set-editor`.
pub struct ParseState {
    pub gathered: ArgumentsModel,
    pub force_patterns: bool,
    pub next_is_editor: bool,
    pub next_is_set_editor: bool,
}

/// Nothing seen yet.
pub open spec fn initial_state() -> ParseState {
    ParseState {
        gathered: ArgumentsModel {
            patterns: Seq::empty(),
            editor_executable: None,
            set_editor_executable: None,
            include_extensions: false,
            dry_run: false,
            usage: false,
        },
        force_patterns: false,
        next_is_editor: false,
        next_is_set_editor: false,
    }
}

/// What one argument does to the state, or nothing for an option that
/// is not understood.
pub open spec fn step(st: ParseState, arg: Seq<u8>) -> Option<ParseState> {
    if st.next_is_editor {
        Some(
            ParseState {
                gathered: ArgumentsModel { editor_executable: Some(arg), ..st.gathered },
                next_is_editor: false,
                ..st
            },
        )
    } else if st.next_is_set_editor {
        Some(
            ParseState {
                gathered: ArgumentsModel {
                    set_editor_executable: Some(arg),
                    editor_executable: Some(arg),
                    ..st.gathered
                },
                next_is_set_editor: false,
                ..st
            },
        )
    } else if starts_dash_dash(arg) && !st.force_patterns {
        if arg == flag_usage() || arg == flag_help() {
            Some(
                ParseState { gathered: ArgumentsModel { usage: true, ..st.gathered }, ..st },
            )
        } else if arg == flag_editor() {
            Some(ParseState { next_is_editor: true, ..st })
        } else if arg == flag_set_editor() {
            Some(ParseState { next_is_set_editor: true, ..st })
        } else if arg == flag_include_extensions() {
            Some(
                ParseState {
                    gathered: ArgumentsModel { include_extensions: true, ..st.gathered },
                    ..st
                },
            )
        } else if arg == flag_dry_run() {
            Some(
                ParseState { gathered: ArgumentsModel { dry_run: true, ..st.gathered }, ..st },
            )
        } else if arg == flag_bare() {
            Some(ParseState { force_patterns: true, ..st })
        } else {
            None
        }
    } else if starts_dash(arg) && !st.force_patterns {
        if arg == flag_e() {
            Some(ParseState { next_is_editor: true, ..st })
        } else if arg == flag_x() {
            Some(
                ParseState {
                    gathered: ArgumentsModel { include_extensions: true, ..st.gathered },
                    ..st
                },
            )
        } else {
            None
        }
    } else {
        Some(
            ParseState {
                gathered: ArgumentsModel {
                    patterns: st.gathered.patterns.push(arg),
                    ..st.gathered
                },
                ..st
            },
        )
    }
}

/// After the last argument: a dangling option value, or a pattern list
/// that does not fit the request, asks for the usage text.  Setting
/// the editor goes with no patterns; everything else needs at least
/// one.
pub open spec fn conclude(st: ParseState) -> ArgumentsModel {
    let dangling = st.next_is_editor || st.next_is_set_editor;
    let wrong_patterns = if st.gathered.set_editor_executable is Some {
        st.gathered.patterns.len() != 0
    } else {
        st.gathered.patterns.len() == 0
    };
    ArgumentsModel {
        usage: st.gathered.usage || dangling || wrong_patterns,
        ..st.gathered
    }
}

/// The whole fold from position `i` on: the finished request, or the
/// position of the first option that is not understood.
pub open spec fn parse_from(st: ParseState, args: Seq<Seq<u8>>, i: int) -> Result<
    ArgumentsModel,
    int,
>
    decreases args.len() - i,
{
    if i >= args.len() {
        Ok(conclude(st))
    } else {
        match step(st, args[i]) {
            Some(st2) => parse_from(st2, args, i + 1),
            None => Err(i),
        }
    }
}

/// What a whole command line means.
pub open spec fn spec_parse_arguments(args: Seq<Seq<u8>>) -> Result<ArgumentsModel, int> {
    parse_from(initial_state(), args, 0)
}

/// The option tokens, in the order `--usage`, `--help`, `--editor`,
/// `--set-editor`, `--include-extensions`, `--dry-run`, `--`, `-e`,
/// `-x`.
fn flag_table() -> (r: Vec<Vec<u8>>)
    ensures
        r@.len() == 9,
        r@[0]@ == flag_usage(),
        r@[1]@ == flag_help(),
        r@[2]@ == flag_editor(),
        r@[3]@ == flag_set_editor(),
        r@[4]@ == flag_include_extensions(),
        r@[5]@ == flag_dry_run(),
        r@[6]@ == flag_bare(),
        r@[7]@ == flag_e(),
        r@[8]@ == flag_x(),
{
    let mut t: Vec<Vec<u8>> = Vec::new();
    let mut v: Vec<u8> = Vec::new();
    v.push(DASH);
    v.push(DASH);
    v.push(117);
    v.push(115);
    v.push(97);
    v.push(103);
    v.push(101);
    proof {
        assert(v@ =~= flag_usage());
    }
    t.push(v);
    let mut v: Vec<u8> = Vec::new();
    v.push(DASH);
    v.push(DASH);
    v.push(104);
    v.push(101);
    v.push(108);
    v.push(112);
    proof {
        assert(v@ =~= flag_help());
    }
    t.push(v);
    let mut v: Vec<u8> = Vec::new();
    v.push(DASH);
    v.push(DASH);
    v.push(101);
    v.push(100);
    v.push(105);
    v.push(116);
    v.push(111);
    v.push(114);
    proof {
        assert(v@ =~= flag_editor());
    }
    t.push(v);
    let mut v: Vec<u8> = Vec::new();
    v.push(DASH);
    v.push(DASH);
    v.push(115);
    v.push(101);
    v.push(116);
    v.push(DASH);
    v.push(101);
    v.push(100);
    v.push(105);
    v.push(116);
    v.push(111);
    v.push(114);
    proof {
        assert(v@ =~= flag_set_editor());
    }
    t.push(v);
    let mut v: Vec<u8> = Vec::new();
    v.push(DASH);
    v.push(DASH);
    v.push(105);
    v.push(110);
    v.push(99);
    v.push(108);
    v.push(117);
    v.push(100);
    v.push(101);
    v.push(DASH);
    v.push(101);
    v.push(120);
    v.push(116);
    v.push(101);
    v.push(110);
    v.push(115);
    v.push(105);
    v.push(111);
    v.push(110);
    v.push(115);
    proof {
        assert(v@ =~= flag_include_extensions());
    }
    t.push(v);
    let mut v: Vec<u8> = Vec::new();
    v.push(DASH);
    v.push(DASH);
    v.push(100);
    v.push(114);
    v.push(121);
    v.push(DASH);
    v.push(114);
    v.push(117);
    v.push(110);
    proof {
        assert(v@ =~= flag_dry_run());
    }
    t.push(v);
    let mut v: Vec<u8> = Vec::new();
    v.push(DASH);
    v.push(DASH);
    proof {
        assert(v@ =~= flag_bare());
    }
    t.push(v);
    let mut v: Vec<u8> = Vec::new();
    v.push(DASH);
    v.push(101);
    proof {
        assert(v@ =~= flag_e());
    }
    t.push(v);
    let mut v: Vec<u8> = Vec::new();
    v.push(DASH);
    v.push(120);
    proof {
        assert(v@ =~= flag_x());
    }
    t.push(v);
    t
}

/// The arguments as the spec functions see them.
pub open spec fn args_view(args: Seq<Vec<u8>>) -> Seq<Seq<u8>> {
    args.map_values(|a: Vec<u8>| a@)
}

/// Classify a whole command line, already split into arguments, the
/// program's own name not among them.  An option that is not
/// understood stops everything at its position, so the caller can name
/// it when it refuses the command line.
pub fn parse_arguments(args: &Vec<Vec<u8>>) -> (r: Result<Arguments, usize>)
    ensures
        match spec_parse_arguments(args_view(args@)) {
            Ok(m) => r matches Ok(a) && a@ == m,
            Err(i) => r matches Err(j) && j == i,
        },
{
    let ghost av: Seq<Seq<u8>> = args_view(args@);
    let flags = flag_table();
    let mut gathered = Arguments {
        patterns: Vec::new(),
        editor_executable: None,
        set_editor_executable: None,
        include_extensions: false,
        dry_run: false,
        usage: false,
    };
    let mut force_patterns = false;
    let mut next_is_editor = false;
    let mut next_is_set_editor = false;
    proof {
        assert(gathered@.patterns =~= Seq::<Seq<u8>>::empty());
        assert(st_of(gathered@, force_patterns, next_is_editor, next_is_set_editor)
            == initial_state());
    }
    let mut i: usize = 0;
    while i < args.len()
        invariant
            i <= args@.len(),
            av == args_view(args@),
            flags@.len() == 9,
            flags@[0]@ == flag_usage(),
            flags@[1]@ == flag_help(),
            flags@[2]@ == flag_editor(),
            flags@[3]@ == flag_set_editor(),
            flags@[4]@ == flag_include_extensions(),
            flags@[5]@ == flag_dry_run(),
            flags@[6]@ == flag_bare(),
            flags@[7]@ == flag_e(),
            flags@[8]@ == flag_x(),
            parse_from(initial_state(), av, 0) == parse_from(
                st_of(gathered@, force_patterns, next_is_editor, next_is_set_editor),
                av,
                i as int,
            ),
        decreases args@.len() - i,
    {
        let ghost st: ParseState = st_of(
            gathered@,
            force_patterns,
            next_is_editor,
            next_is_set_editor,
        );
        let a = &args[i];
        proof {
            assert(av[i as int] == a@);
        }
        if next_is_editor {
            gathered.editor_executable = Some(vstd::slice::slice_to_vec(a.as_slice()));
            next_is_editor = false;
        } else if next_is_set_editor {
            gathered.set_editor_executable = Some(vstd::slice::slice_to_vec(a.as_slice()));
            gathered.editor_executable = Some(vstd::slice::slice_to_vec(a.as_slice()));
            next_is_set_editor = false;
        } else if a.len() >= 2 && a[0] == DASH && a[1] == DASH && !force_patterns {
            if bytes_eq(a.as_slice(), flags[0].as_slice()) || bytes_eq(
                a.as_slice(),
                flags[1].as_slice(),
            ) {
                gathered.usage = true;
            } else if bytes_eq(a.as_slice(), flags[2].as_slice()) {
                next_is_editor = true;
            } else if bytes_eq(a.as_slice(), flags[3].as_slice()) {
                next_is_set_editor = true;
            } else if bytes_eq(a.as_slice(), flags[4].as_slice()) {
                gathered.include_extensions = true;
            } else if bytes_eq(a.as_slice(), flags[5].as_slice()) {
                gathered.dry_run = true;
            } else if bytes_eq(a.as_slice(), flags[6].as_slice()) {
                force_patterns = true;
            } else {
                return Err(i);
            }
        } else if a.len() >= 1 && a[0] == DASH && !force_patterns {
            if bytes_eq(a.as_slice(), flags[7].as_slice()) {
                next_is_editor = true;
            } else if bytes_eq(a.as_slice(), flags[8].as_slice()) {
                gathered.include_extensions = true;
            } else {
                return Err(i);
            }
        } else {
            let ghost pats: Seq<Seq<u8>> = gathered@.patterns;
            gathered.patterns.push(vstd::slice::slice_to_vec(a.as_slice()));
            proof {
                assert(gathered@.patterns =~= pats.push(a@));
            }
        }
        proof {
            assert(step(st, av[i as int]) == Some(
                st_of(gathered@, force_patterns, next_is_editor, next_is_set_editor),
            ));
        }
        i += 1;
    }
    proof {
        assert(conclude(st_of(gathered@, force_patterns, next_is_editor, next_is_set_editor))
            == ArgumentsModel {
            usage: gathered@.usage || next_is_editor || next_is_set_editor || (
            if gathered@.set_editor_executable is Some {
                gathered@.patterns.len() != 0
            } else {
                gathered@.patterns.len() == 0
            }),
            ..gathered@
        });
    }
    if next_is_editor || next_is_set_editor {
        gathered.usage = true;
    }
    match &gathered.set_editor_executable {
        Some(_) => {
            if gathered.patterns.len() != 0 {
                gathered.usage = true;
            }
        },
        None => {
            if gathered.patterns.len() == 0 {
                gathered.usage = true;
            }
        },
    }
    Ok(gathered)
}

/// The fold state that a set of gathered pieces stands for.
pub open spec fn st_of(m: ArgumentsModel, fp: bool, ne: bool, nse: bool) -> ParseState {
    ParseState { gathered: m, force_patterns: fp, next_is_editor: ne, next_is_set_editor: nse }
}

} // verus!
