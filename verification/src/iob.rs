//! The addresses of I/O bridges: what kind of bridge an address asks for.
//!
//! Opening, writing and reading are the host's part; telling the kinds
//! apart is done here.

use vstd::prelude::*;
use crate::text::{chars_of, slice_of, spells, starts_with, string_of};

verus! {

/// How a bridge is to be opened.
#[derive(Debug, Clone, PartialEq, Eq)]
pub enum IobPlan {
    /// A sink: nothing is opened.
    Sink,
    /// The console.
    Console,
    /// The file at `path`, written from its end on if `append` is set, else
    /// from its start.
    File { path: String, append: bool },
    /// A TCP connection to `hostport`, which is of the form `HOST:PORT`.
    TcpClient { hostport: String },
    /// The address is of no known kind.
    Unknown,
}

/// What an `IobPlan` holds, as mathematics.
pub enum IobPlanView {
    Sink,
    Console,
    File { path: Seq<char>, append: bool },
    TcpClient { hostport: Seq<char> },
    Unknown,
}

impl View for IobPlan {
    type V = IobPlanView;

    open spec fn view(&self) -> IobPlanView {
        match self {
            IobPlan::Sink => IobPlanView::Sink,
            IobPlan::Console => IobPlanView::Console,
            IobPlan::File { path, append } => IobPlanView::File { path: path@, append: *append },
            IobPlan::TcpClient { hostport } => IobPlanView::TcpClient { hostport: hostport@ },
            IobPlan::Unknown => IobPlanView::Unknown,
        }
    }
}

/// The value of the option `key`: that of its last occurrence.
pub open spec fn option_value(args: Seq<(Seq<char>, Seq<char>)>, key: Seq<char>) -> Option<
    Seq<char>,
>
    decreases args.len(),
{
    if args.len() == 0 {
        None
    } else if args.last().0 == key {
        Some(args.last().1)
    } else {
        option_value(args.drop_last(), key)
    }
}

/// The prefix of a file address.
pub open spec fn file_scheme() -> Seq<char> {
    "file://"@
}

/// The prefix of a TCP address.
pub open spec fn tcp_scheme() -> Seq<char> {
    "tcp://"@
}

/// Whether `s` begins with `p`.
pub open spec fn begins(s: Seq<char>, p: Seq<char>) -> bool {
    p.len() <= s.len() && s.take(p.len() as int) == p
}

/// The plan that an address and its options ask for: `none` is the sink,
/// `console` the console, `file://PATH` a file, which the option
/// `append=true` opens for appending, and `tcp://HOST:PORT` a TCP
/// connection.
pub open spec fn planned(addr: Seq<char>, args: Seq<(Seq<char>, Seq<char>)>) -> IobPlanView {
    if addr == "none"@ {
        IobPlanView::Sink
    } else if addr == "console"@ {
        IobPlanView::Console
    } else if begins(addr, file_scheme()) {
        IobPlanView::File {
            path: addr.skip(file_scheme().len() as int),
            append: option_value(args, "append"@) == Some("true"@),
        }
    } else if begins(addr, tcp_scheme()) {
        IobPlanView::TcpClient { hostport: addr.skip(tcp_scheme().len() as int) }
    } else {
        IobPlanView::Unknown
    }
}

/// Whether the last occurrence of the option `key` has the value `value`.
pub fn option_is(args: &Vec<(String, String)>, key: &str, value: &str) -> (b: bool)
    ensures
        b == (option_value(args.deep_view(), key@) == Some(value@)),
{
    let k = key.to_owned();
    let v = value.to_owned();
    let mut i: usize = args.len();
    let ghost all = args.deep_view();
    assert(all.take(i as int) =~= all);
    while i > 0
        invariant
            i <= args.len(),
            all == args.deep_view(),
            k@ == key@,
            v@ == value@,
            option_value(all, key@) == option_value(all.take(i as int), key@),
        decreases i,
    {
        proof {
            assert(all.take(i as int).drop_last() =~= all.take(i - 1));
            assert(all.take(i as int).last() == args[i - 1].deep_view());
        }
        if args[i - 1].0 == k {
            return args[i - 1].1 == v;
        }
        i -= 1;
    }
    false
}

/// Tells what kind of bridge an address asks for.
pub fn plan(addr: &str, args: &Vec<(String, String)>) -> (p: IobPlan)
    ensures
        p@ == planned(addr@, args.deep_view()),
{
    let a = chars_of(addr);
    proof {
        reveal_strlit("file://");
        reveal_strlit("tcp://");
    }
    if spells(&a, "none") {
        IobPlan::Sink
    } else if spells(&a, "console") {
        IobPlan::Console
    } else if starts_with(&a, "file://") {
        let path = slice_of(&a, 7, a.len());
        assert(path@ =~= addr@.skip(7));
        IobPlan::File { path: string_of(&path), append: option_is(args, "append", "true") }
    } else if starts_with(&a, "tcp://") {
        let hostport = slice_of(&a, 6, a.len());
        assert(hostport@ =~= addr@.skip(6));
        IobPlan::TcpClient { hostport: string_of(&hostport) }
    } else {
        IobPlan::Unknown
    }
}

} // verus!
