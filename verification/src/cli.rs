//! The command line.

use vstd::prelude::*;

use crate::path::Path;
use crate::text::{begins_with, join2, same_text, starts_with_char, strip_prefix, views};

verus! {

/// What the command line asks for.
#[derive(Debug)]
pub struct Opts {
    pub root: Option<Path>,
    pub theme: Option<String>,
    pub help: bool,
}

/// What the command line asks for, with texts in place of paths and strings.
pub struct OptsView {
    pub root: Option<Seq<char>>,
    pub theme: Option<Seq<char>>,
    pub help: bool,
}

impl Opts {
    /// Whether the options say what the view says.
    pub open spec fn says(&self, v: OptsView) -> bool {
        &&& self.root is Some == v.root is Some
        &&& self.root is Some ==> self.root->0@ == vstd::utf8::encode_utf8(v.root->0)
        &&& self.theme is Some == v.theme is Some
        &&& self.theme is Some ==> self.theme->0@ == v.theme->0
        &&& self.help == v.help
    }
}

/// What the arguments ask for, or what is wrong with them. Of two values for
/// one option the later one counts; an argument that is no flag names the
/// root.
pub open spec fn asked(args: Seq<Seq<char>>, so_far: OptsView) -> Result<OptsView, Seq<char>>
    decreases args.len(),
{
    if args.len() == 0 {
        Ok(so_far)
    } else {
        let a = args[0];
        let rest = args.skip(1);
        if a == "-h"@ || a == "--help"@ {
            asked(rest, OptsView { help: true, ..so_far })
        } else if a == "--root"@ {
            if rest.len() == 0 {
                Err("--root requires a value"@)
            } else {
                asked(rest.skip(1), OptsView { root: Some(rest[0]), ..so_far })
            }
        } else if a == "--theme"@ {
            if rest.len() == 0 {
                Err("--theme requires a value"@)
            } else {
                asked(rest.skip(1), OptsView { theme: Some(rest[0]), ..so_far })
            }
        } else if begins_with(a, "--root="@) {
            asked(rest, OptsView { root: Some(a.skip("--root="@.len() as int)), ..so_far })
        } else if begins_with(a, "--theme="@) {
            asked(rest, OptsView { theme: Some(a.skip("--theme="@.len() as int)), ..so_far })
        } else if a.len() > 0 && a[0] == '-' {
            Err("unknown flag: "@ + a)
        } else {
            asked(rest, OptsView { root: Some(a), ..so_far })
        }
    }
}

/// Reads the command line.
pub fn parse_args(args: &[String]) -> (r: Result<Opts, String>)
    ensures
        match (r, asked(views(args@), OptsView { root: None, theme: None, help: false })) {
            (Ok(o), Ok(v)) => o.says(v),
            (Err(e), Err(m)) => e@ == m,
            _ => false,
        },
{
    let ghost all = views(args@);
    let ghost none = OptsView { root: None, theme: None, help: false };
    let ghost mut held = none;
    let mut opts = Opts { root: None, theme: None, help: false };
    let mut i: usize = 0;
    assert(all.skip(0) =~= all);
    while i < args.len()
        invariant
            all == views(args@),
            i <= args.len(),
            opts.says(held),
            asked(all, none) == asked(all.skip(i as int), held),
            none == (OptsView { root: None, theme: None, help: false }),
        decreases args@.len() - i,
    {
        let arg = args[i].as_str();
        proof {
            assert(all.skip(i as int)[0] == arg@);
            assert(all.skip(i as int).skip(1) =~= all.skip(i + 1));
        }
        i += 1;
        if same_text(arg, "-h") || same_text(arg, "--help") {
            opts.help = true;
            proof {
                held = OptsView { help: true, ..held };
            }
            continue;
        }
        if same_text(arg, "--root") {
            if i >= args.len() {
                return Err("--root requires a value".to_owned());
            }
            opts.root = Some(Path::new(args[i].as_str()));
            proof {
                assert(all.skip(i as int)[0] == args@[i as int]@);
                assert(all.skip(i as int).skip(1) =~= all.skip(i + 1));
                held = OptsView { root: Some(args@[i as int]@), ..held };
            }
            i += 1;
            continue;
        }
        if same_text(arg, "--theme") {
            if i >= args.len() {
                return Err("--theme requires a value".to_owned());
            }
            opts.theme = Some(args[i].clone());
            proof {
                assert(all.skip(i as int)[0] == args@[i as int]@);
                assert(all.skip(i as int).skip(1) =~= all.skip(i + 1));
                held = OptsView { theme: Some(args@[i as int]@), ..held };
            }
            i += 1;
            continue;
        }
        if let Some(v) = strip_prefix(arg, "--root=") {
            opts.root = Some(Path::new(v.as_str()));
            proof {
                held = OptsView { root: Some(v@), ..held };
            }
            continue;
        }
        if let Some(v) = strip_prefix(arg, "--theme=") {
            proof {
                held = OptsView { theme: Some(v@), ..held };
            }
            opts.theme = Some(v);
            continue;
        }
        if starts_with_char(arg, '-') {
            return Err(join2("unknown flag: ", arg));
        }
        opts.root = Some(Path::new(arg));
        proof {
            held = OptsView { root: Some(arg@), ..held };
        }
    }
    assert(all.skip(i as int) =~= Seq::empty());
    Ok(opts)
}

/// What a program is started for.
#[derive(Debug)]
pub enum Start {
    /// To show a path in a tree that runs already.
    Reveal(String),
    /// For that, but without a path.
    RevealUsage,
    /// To show the tree.
    Tree(Opts),
    /// Arguments that make no sense, and why.
    Wrong(String),
}

/// What the arguments, the program's own name among them, start.
pub fn start(args: &[String]) -> (r: Start)
    ensures
        ({
            let a = views(args@);
            let rest = if a.len() > 0 {
                a.skip(1)
            } else {
                a
            };
            if a.len() > 1 && a[1] == "reveal"@ {
                if a.len() > 2 {
                    r is Reveal && r->Reveal_0@ == a[2]
                } else {
                    r is RevealUsage
                }
            } else {
                match asked(rest, OptsView { root: None, theme: None, help: false }) {
                    Ok(v) => r is Tree && r->Tree_0.says(v),
                    Err(m) => r is Wrong && r->Wrong_0@ == m,
                }
            }
        }),
{
    let ghost a = views(args@);
    if args.len() > 1 {
        assert(a[1] == args@[1]@);
        if same_text(args[1].as_str(), "reveal") {
            if args.len() > 2 {
                assert(a[2] == args@[2]@);
                return Start::Reveal(args[2].clone());
            }
            return Start::RevealUsage;
        }
    }
    let rest = if args.len() > 0 {
        vstd::slice::slice_subrange(args, 1, args.len())
    } else {
        args
    };
    proof {
        if args@.len() > 0 {
            assert(views(rest@) =~= a.skip(1));
        }
    }
    match parse_args(rest) {
        Ok(o) => Start::Tree(o),
        Err(m) => Start::Wrong(m),
    }
}

} // verus!
