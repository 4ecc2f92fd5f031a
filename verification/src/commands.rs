use vstd::prelude::*;
use vstd::string::StrSliceExecFns;

verus! {

/// A command line: an action and its arguments.
pub struct Commands {
    com: Action,
    args: Vec<Arg>,
}

/// An argument: `--name=value` (or `--name="a value"`), or a flag (`-f`, `--flag`).
#[derive(Debug, PartialEq, Eq, PartialOrd, Ord)]
pub enum Arg {
    Inner((String, String)),
    Flag(String),
}

/// The action a command line asks for.
#[derive(PartialEq, Eq, Clone, Debug)]
pub enum Action {
    Help,
    Stop,
    Unknown(String),
}

pub const STOP: Action = Action::Stop;

pub enum ArgView {
    Inner(Seq<char>, Seq<char>),
    Flag(Seq<char>),
}

pub enum ActionView {
    Help,
    Stop,
    Unknown(Seq<char>),
}

pub struct CommandsView {
    pub com: ActionView,
    pub args: Seq<ArgView>,
}

impl View for Arg {
    type V = ArgView;

    open spec fn view(&self) -> ArgView {
        match self {
            Arg::Inner(p) => ArgView::Inner(p.0@, p.1@),
            Arg::Flag(f) => ArgView::Flag(f@),
        }
    }
}

impl View for Action {
    type V = ActionView;

    open spec fn view(&self) -> ActionView {
        match self {
            Action::Help => ActionView::Help,
            Action::Stop => ActionView::Stop,
            Action::Unknown(s) => ActionView::Unknown(s@),
        }
    }
}

pub open spec fn args_view(v: Seq<Arg>) -> Seq<ArgView> {
    v.map_values(|a: Arg| a@)
}

impl View for Commands {
    type V = CommandsView;

    closed spec fn view(&self) -> CommandsView {
        CommandsView { com: self.com@, args: args_view(self.args@) }
    }
}

// ---------------------------------------------------------------------------
// The command-line syntax, stated over characters
// ---------------------------------------------------------------------------

/// The characters trimmed from both ends of a command line.
pub open spec fn is_ws(c: char) -> bool {
    c == ' ' || c == '\n' || c == '\r'
}

/// A character of one byte in UTF-8.
pub open spec fn is_ascii_char(c: char) -> bool {
    (c as u32) < 128
}

pub open spec fn trim_front(s: Seq<char>) -> Seq<char>
    decreases s.len(),
{
    if s.len() > 0 && is_ws(s[0]) {
        trim_front(s.drop_first())
    } else {
        s
    }
}

pub open spec fn trim_back(s: Seq<char>) -> Seq<char>
    decreases s.len(),
{
    if s.len() > 0 && is_ws(s.last()) {
        trim_back(s.drop_last())
    } else {
        s
    }
}

pub open spec fn trimmed(s: Seq<char>) -> Seq<char> {
    trim_back(trim_front(s))
}

/// The first position of `c` in `s` from `from` on.
pub open spec fn find_char(s: Seq<char>, from: int, c: char) -> Option<int>
    decreases s.len() - from,
{
    if from < 0 || from >= s.len() {
        None
    } else if s[from] == c {
        Some(from)
    } else {
        find_char(s, from + 1, c)
    }
}

pub proof fn lemma_find_char(s: Seq<char>, from: int, c: char)
    requires
        0 <= from,
    ensures
        find_char(s, from, c) matches Some(q) ==> from <= q < s.len() && s[q] == c && forall|k: int|
            from <= k < q ==> s[k] != c,
        find_char(s, from, c) is None ==> forall|k: int| from <= k < s.len() ==> s[k] != c,
    decreases s.len() - from,
{
    if from < s.len() && s[from] != c {
        lemma_find_char(s, from + 1, c);
    }
}

pub enum ArgsOutcome {
    Panic,
    Fail,
    Done(Seq<ArgView>),
}

/// The arguments from position `pos` of the trimmed line `s` on, after those in `acc`.
/// A position where a one-byte character is needed and another stands panics: the text is
/// cut there by byte offsets.
pub open spec fn cmd_args(s: Seq<char>, pos: int, acc: Seq<ArgView>) -> ArgsOutcome
    decreases s.len() - pos, 1int,
{
    if pos < 0 {
        ArgsOutcome::Panic
    } else if pos >= s.len() {
        ArgsOutcome::Done(acc)
    } else {
        let rl = s.len() - pos;
        if !(rl >= 2 && is_ascii_char(s[pos]) && is_ascii_char(s[pos + 1])) {
            ArgsOutcome::Panic
        } else if s[pos] == '-' && s[pos + 1] == '-' {
            flag_scan(s, pos + 2, 0, acc)
        } else if s[pos] == '-' {
            let acc2 = acc.push(ArgView::Flag(s.subrange(pos + 1, pos + 2)));
            if rl < 3 {
                ArgsOutcome::Done(acc2)
            } else if !is_ascii_char(s[pos + 2]) {
                ArgsOutcome::Panic
            } else {
                cmd_args(s, pos + 3, acc2)
            }
        } else {
            ArgsOutcome::Fail
        }
    }
}

/// A long argument that starts at `start`, read up to `start + index` so far.
pub open spec fn flag_scan(s: Seq<char>, start: int, index: int, acc: Seq<ArgView>) -> ArgsOutcome
    decreases s.len() - start - index, 0int,
{
    let rl = s.len() - start;
    if start < 0 || index < 0 || index > rl {
        ArgsOutcome::Panic
    } else if index < rl && !is_ascii_char(s[start + index]) {
        ArgsOutcome::Panic
    } else if index < rl && s[start + index] == '=' {
        let name = s.subrange(start, start + index);
        if index + 1 >= rl {
            ArgsOutcome::Panic
        } else if !is_ascii_char(s[start + index + 1]) {
            ArgsOutcome::Panic
        } else if s[start + index + 1] == '"' {
            let r = start + index + 2;
            proof {
                lemma_find_char(s, r, '"');
            }
            match find_char(s, r, '"') {
                None => ArgsOutcome::Fail,
                Some(q) => {
                    let acc2 = acc.push(ArgView::Inner(name, s.subrange(r, q)));
                    if q + 1 < s.len() {
                        if !is_ascii_char(s[q + 1]) {
                            ArgsOutcome::Panic
                        } else {
                            cmd_args(s, q + 2, acc2)
                        }
                    } else {
                        ArgsOutcome::Done(acc2)
                    }
                },
            }
        } else {
            let r = start + index + 1;
            proof {
                lemma_find_char(s, r, ' ');
            }
            match find_char(s, r, ' ') {
                Some(p) => cmd_args(s, p + 1, acc.push(ArgView::Inner(name, s.subrange(r, p)))),
                None => ArgsOutcome::Done(
                    acc.push(ArgView::Inner(name, s.subrange(r, s.len() as int))),
                ),
            }
        }
    } else if index == rl {
        ArgsOutcome::Done(acc.push(ArgView::Flag(s.subrange(start, s.len() as int))))
    } else if s[start + index] == ' ' {
        cmd_args(s, start + index + 1, acc.push(ArgView::Flag(s.subrange(start, start + index))))
    } else {
        flag_scan(s, start, index + 1, acc)
    }
}

pub open spec fn action_of(w: Seq<char>) -> ActionView {
    if w == seq!['h', 'e', 'l', 'p'] {
        ActionView::Help
    } else if w == seq!['s', 't', 'o', 'p'] {
        ActionView::Stop
    } else {
        ActionView::Unknown(w)
    }
}

/// Every character of `s` is trimmed.
pub open spec fn all_ws(s: Seq<char>) -> bool {
    forall|k: int| 0 <= k < s.len() ==> is_ws(#[trigger] s[k])
}

proof fn lemma_trim_front_ws(a: Seq<char>, t: Seq<char>)
    requires
        all_ws(a),
    ensures
        trim_front(a + t) == trim_front(t),
    decreases a.len(),
{
    if a.len() > 0 {
        assert((a + t)[0] == a[0]);
        assert((a + t).drop_first() =~= a.drop_first() + t);
        lemma_trim_front_ws(a.drop_first(), t);
    } else {
        assert(a + t =~= t);
    }
}

proof fn lemma_trim_back_ws(t: Seq<char>, b: Seq<char>)
    requires
        all_ws(b),
    ensures
        trim_back(t + b) == trim_back(t),
    decreases b.len(),
{
    if b.len() > 0 {
        assert((t + b).last() == b.last());
        assert((t + b).drop_last() =~= t + b.drop_last());
        lemma_trim_back_ws(t, b.drop_last());
    } else {
        assert(t + b =~= t);
    }
}

proof fn lemma_trim_front_all_ws(x: Seq<char>)
    requires
        all_ws(x),
    ensures
        trim_front(x).len() == 0,
    decreases x.len(),
{
    if x.len() > 0 {
        lemma_trim_front_all_ws(x.drop_first());
    }
}

proof fn lemma_trim_front_append(s: Seq<char>, b: Seq<char>)
    requires
        !all_ws(s),
    ensures
        trim_front(s + b) == trim_front(s) + b,
    decreases s.len(),
{
    if is_ws(s[0]) {
        assert((s + b)[0] == s[0]);
        assert((s + b).drop_first() =~= s.drop_first() + b);
        assert(!all_ws(s.drop_first())) by {
            let k = choose|k: int| 0 <= k < s.len() && !is_ws(s[k]);
            assert(k != 0);
            assert(s.drop_first()[k - 1] == s[k]);
        }
        lemma_trim_front_append(s.drop_first(), b);
    } else {
        assert((s + b)[0] == s[0]);
    }
}

/// A command line reads the same with spaces, carriage returns and line feeds before and
/// after it.
pub proof fn law_trim_invariant(a: Seq<char>, s: Seq<char>, b: Seq<char>)
    requires
        all_ws(a),
        all_ws(b),
    ensures
        trimmed(a + s + b) == trimmed(s),
        cmd_parse(a + s + b) == cmd_parse(s),
{
    assert(a + s + b =~= a + (s + b));
    lemma_trim_front_ws(a, s + b);
    if all_ws(s) {
        assert(all_ws(s + b)) by {
            assert forall|k: int| 0 <= k < (s + b).len() implies is_ws(#[trigger] (s + b)[k]) by {
                if k < s.len() {
                    assert((s + b)[k] == s[k]);
                } else {
                    assert((s + b)[k] == b[k - s.len()]);
                }
            }
        }
        lemma_trim_front_all_ws(s + b);
        lemma_trim_front_all_ws(s);
        assert(trim_front(s + b) =~= trim_front(s));
    } else {
        lemma_trim_front_append(s, b);
        lemma_trim_back_ws(trim_front(s), b);
    }
}

pub enum CmdOutcome {
    Panic,
    Fail,
    Done(CommandsView),
}

/// A command line: trimmed, then the action up to the first space, then the arguments.
pub open spec fn cmd_parse(src: Seq<char>) -> CmdOutcome {
    let s = trimmed(src);
    if s.len() == 0 {
        CmdOutcome::Fail
    } else {
        match find_char(s, 0, ' ') {
            None => CmdOutcome::Done(CommandsView { com: action_of(s), args: Seq::empty() }),
            Some(p) => match cmd_args(s, p + 1, Seq::empty()) {
                ArgsOutcome::Panic => CmdOutcome::Panic,
                ArgsOutcome::Fail => CmdOutcome::Fail,
                ArgsOutcome::Done(a) => CmdOutcome::Done(
                    CommandsView { com: action_of(s.subrange(0, p)), args: a },
                ),
            },
        }
    }
}

// ---------------------------------------------------------------------------
// Reading a command line
// ---------------------------------------------------------------------------

fn is_ascii_c(c: char) -> (r: bool)
    ensures
        r == is_ascii_char(c),
{
    (c as u32) < 128
}

fn is_ws_c(c: char) -> (r: bool)
    ensures
        r == is_ws(c),
{
    c == ' ' || c == '\n' || c == '\r'
}

/// The characters of `t`.
pub(crate) fn chars_of(t: &str) -> (v: Vec<char>)
    ensures
        v@ == t@,
{
    let n = t.unicode_len();
    let mut v: Vec<char> = Vec::new();
    let mut i: usize = 0;
    while i < n
        invariant
            n == t@.len(),
            i <= n,
            v@ == t@.take(i as int),
        decreases n - i,
    {
        v.push(t.get_char(i));
        assert(v@ =~= t@.take(i + 1));
        i = i + 1;
    }
    assert(v@ =~= t@);
    v
}

/// The characters `a..b` of `t`, as a new string.
fn sub_string(t: &str, a: usize, b: usize) -> (r: String)
    requires
        a <= b <= t@.len(),
    ensures
        r@ == t@.subrange(a as int, b as int),
{
    t.substring_char(a, b).to_owned()
}

/// The first position of `c` in `s` from `from` on.
fn find_from(s: &Vec<char>, from: usize, c: char) -> (r: Option<usize>)
    ensures
        r matches Some(q) ==> find_char(s@, from as int, c) == Some(q as int),
        r is None ==> find_char(s@, from as int, c) is None,
{
    let n = s.len();
    let mut k = from;
    while k < n
        invariant
            n == s@.len(),
            from <= k,
            find_char(s@, from as int, c) == find_char(s@, k as int, c),
        decreases n - k,
    {
        if s[k] == c {
            return Some(k);
        }
        k = k + 1;
    }
    None
}

/// The action named by the characters `a..b` of `t`.
fn action_from(t: &str, s: &Vec<char>, a: usize, b: usize) -> (r: Action)
    requires
        t@ == s@,
        a <= b <= s@.len(),
    ensures
        r@ == action_of(s@.subrange(a as int, b as int)),
{
    let ghost w = s@.subrange(a as int, b as int);
    if b - a == 4 && s[a] == 'h' && s[a + 1] == 'e' && s[a + 2] == 'l' && s[a + 3] == 'p' {
        assert(w =~= seq!['h', 'e', 'l', 'p']);
        Action::Help
    } else if b - a == 4 && s[a] == 's' && s[a + 1] == 't' && s[a + 2] == 'o' && s[a + 3] == 'p' {
        assert(w =~= seq!['s', 't', 'o', 'p']);
        Action::Stop
    } else {
        assert(w != seq!['h', 'e', 'l', 'p']) by {
            if w == seq!['h', 'e', 'l', 'p'] {
                assert(w.len() == 4);
                assert(w[0] == 'h' && w[1] == 'e' && w[2] == 'l' && w[3] == 'p');
                assert(s@[a as int] == w[0]);
                assert(s@[a + 1] == w[1]);
                assert(s@[a + 2] == w[2]);
                assert(s@[a + 3] == w[3]);
            }
        }
        assert(w != seq!['s', 't', 'o', 'p']) by {
            if w == seq!['s', 't', 'o', 'p'] {
                assert(w.len() == 4);
                assert(w[0] == 's' && w[1] == 't' && w[2] == 'o' && w[3] == 'p');
                assert(s@[a as int] == w[0]);
                assert(s@[a + 1] == w[1]);
                assert(s@[a + 2] == w[2]);
                assert(s@[a + 3] == w[3]);
            }
        }
        Action::Unknown(sub_string(t, a, b))
    }
}

enum ScanOut {
    Panic,
    Fail,
    Done,
    Next(usize),
}

/// Reads the long argument that starts at `start`.
fn scan_long(t: &str, s: &Vec<char>, start: usize, args: &mut Vec<Arg>) -> (r: ScanOut)
    requires
        t@ == s@,
        start <= s@.len(),
    ensures
        r is Panic ==> flag_scan(s@, start as int, 0, args_view(old(args)@)) is Panic,
        r is Fail ==> flag_scan(s@, start as int, 0, args_view(old(args)@)) is Fail,
        r is Done ==> flag_scan(s@, start as int, 0, args_view(old(args)@)) == ArgsOutcome::Done(
            args_view(final(args)@),
        ),
        r matches ScanOut::Next(p) ==> start < p && cmd_args(s@, p as int, args_view(final(args)@))
            == flag_scan(s@, start as int, 0, args_view(old(args)@)),
{
    let n = s.len();
    let ghost acc = args_view(args@);
    let mut index: usize = 0;
    loop
        invariant
            n == s@.len(),
            start <= n,
            index <= n - start,
            t@ == s@,
            args@ == old(args)@,
            acc == args_view(old(args)@),
            flag_scan(s@, start as int, index as int, acc) == flag_scan(s@, start as int, 0, acc),
        decreases n - start - index,
    {
        let rl = n - start;
        if index < rl && !is_ascii_c(s[start + index]) {
            return ScanOut::Panic;
        }
        if index < rl && s[start + index] == '=' {
            let name_end = start + index;
            if index + 1 >= rl {
                return ScanOut::Panic;
            }
            let c1 = s[start + index + 1];
            if !is_ascii_c(c1) {
                return ScanOut::Panic;
            }
            if c1 == '"' {
                let r = start + index + 2;
                proof {
                    lemma_find_char(s@, r as int, '"');
                }
                match find_from(s, r, '"') {
                    None => {
                        return ScanOut::Fail;
                    },
                    Some(q) => {
                        let name = sub_string(t, start, name_end);
                        let value = sub_string(t, r, q);
                        args.push(Arg::Inner((name, value)));
                        assert(args_view(args@) =~= acc.push(
                            ArgView::Inner(
                                s@.subrange(start as int, name_end as int),
                                s@.subrange(r as int, q as int),
                            ),
                        ));
                        if q + 1 < n {
                            if !is_ascii_c(s[q + 1]) {
                                return ScanOut::Panic;
                            }
                            return ScanOut::Next(q + 2);
                        } else {
                            return ScanOut::Done;
                        }
                    },
                }
            } else {
                let r = start + index + 1;
                proof {
                    lemma_find_char(s@, r as int, ' ');
                }
                let name = sub_string(t, start, name_end);
                match find_from(s, r, ' ') {
                    Some(p) => {
                        let value = sub_string(t, r, p);
                        args.push(Arg::Inner((name, value)));
                        assert(args_view(args@) =~= acc.push(
                            ArgView::Inner(
                                s@.subrange(start as int, name_end as int),
                                s@.subrange(r as int, p as int),
                            ),
                        ));
                        return ScanOut::Next(p + 1);
                    },
                    None => {
                        let value = sub_string(t, r, n);
                        args.push(Arg::Inner((name, value)));
                        assert(args_view(args@) =~= acc.push(
                            ArgView::Inner(
                                s@.subrange(start as int, name_end as int),
                                s@.subrange(r as int, n as int),
                            ),
                        ));
                        return ScanOut::Done;
                    },
                }
            }
        } else if index == rl {
            args.push(Arg::Flag(sub_string(t, start, n)));
            assert(args_view(args@) =~= acc.push(
                ArgView::Flag(s@.subrange(start as int, n as int)),
            ));
            return ScanOut::Done;
        } else if s[start + index] == ' ' {
            args.push(Arg::Flag(sub_string(t, start, start + index)));
            assert(args_view(args@) =~= acc.push(
                ArgView::Flag(s@.subrange(start as int, start + index)),
            ));
            return ScanOut::Next(start + index + 1);
        }
        index = index + 1;
    }
}

enum Parsed {
    Panic,
    Fail,
    Done(Commands),
}

/// Reads the arguments of the trimmed line `s` from `pos` on.
fn parse_args(t: &str, s: &Vec<char>, from: usize, args: &mut Vec<Arg>) -> (r: Option<bool>)
    requires
        t@ == s@,
        from <= s@.len(),
    ensures
        match cmd_args(s@, from as int, args_view(old(args)@)) {
            ArgsOutcome::Panic => r is None,
            ArgsOutcome::Fail => r == Some(false),
            ArgsOutcome::Done(a) => r == Some(true) && args_view(final(args)@) == a,
        },
{
    let n = s.len();
    let ghost goal = cmd_args(s@, from as int, args_view(args@));
    let mut pos = from;
    while pos < n
        invariant
            n == s@.len(),
            pos <= n,
            t@ == s@,
            cmd_args(s@, pos as int, args_view(args@)) == goal,
            goal == cmd_args(s@, from as int, args_view(old(args)@)),
        decreases n - pos,
    {
        let ghost before = args_view(args@);
        let rl = n - pos;
        if !(rl >= 2 && is_ascii_c(s[pos]) && is_ascii_c(s[pos + 1])) {
            assert(cmd_args(s@, pos as int, before) is Panic);
            return None;
        }
        if s[pos] == '-' && s[pos + 1] == '-' {
            match scan_long(t, s, pos + 2, args) {
                ScanOut::Panic => {
                    return None;
                },
                ScanOut::Fail => {
                    return Some(false);
                },
                ScanOut::Done => {
                    return Some(true);
                },
                ScanOut::Next(p) => {
                    if p >= n {
                        return Some(true);
                    }
                    pos = p;
                },
            }
        } else if s[pos] == '-' {
            args.push(Arg::Flag(sub_string(t, pos + 1, pos + 2)));
            assert(args_view(args@) =~= before.push(
                ArgView::Flag(s@.subrange(pos + 1, pos + 2)),
            ));
            if rl < 3 {
                return Some(true);
            }
            if !is_ascii_c(s[pos + 2]) {
                return None;
            }
            pos = pos + 3;
        } else {
            return Some(false);
        }
    }
    Some(true)
}

/// Reads a command line.
fn parse_command(text: &str) -> (r: Parsed)
    ensures
        match cmd_parse(text@) {
            CmdOutcome::Panic => r is Panic,
            CmdOutcome::Fail => r is Fail,
            CmdOutcome::Done(v) => r matches Parsed::Done(c) && c@ == v,
        },
{
    let all = chars_of(text);
    let n = all.len();
    let mut a: usize = 0;
    assert(all@.subrange(0, n as int) =~= all@);
    while a < n && is_ws_c(all[a])
        invariant
            n == all@.len(),
            a <= n,
            trim_front(all@) == trim_front(all@.subrange(a as int, n as int)),
        decreases n - a,
    {
        assert(all@.subrange(a as int, n as int).drop_first() =~= all@.subrange(a + 1, n as int));
        a = a + 1;
    }
    assert(trim_front(all@) == all@.subrange(a as int, n as int));
    let mut b: usize = n;
    while b > a && is_ws_c(all[b - 1])
        invariant
            n == all@.len(),
            a <= b <= n,
            trimmed(all@) == trim_back(all@.subrange(a as int, b as int)),
        decreases b - a,
    {
        assert(all@.subrange(a as int, b as int).drop_last() =~= all@.subrange(a as int, b - 1));
        b = b - 1;
    }
    assert(trimmed(all@) == all@.subrange(a as int, b as int));
    let t = text.substring_char(a, b);
    let s = chars_of(t);
    let len = s.len();
    if len == 0 {
        return Parsed::Fail;
    }
    proof {
        lemma_find_char(s@, 0, ' ');
    }
    match find_from(&s, 0, ' ') {
        None => {
            let com = action_from(t, &s, 0, len);
            assert(s@.subrange(0, len as int) =~= s@);
            let c = Commands { com, args: Vec::new() };
            assert(c@.args =~= Seq::<ArgView>::empty());
            Parsed::Done(c)
        },
        Some(p) => {
            let mut args: Vec<Arg> = Vec::new();
            assert(args_view(args@) =~= Seq::<ArgView>::empty());
            match parse_args(t, &s, p + 1, &mut args) {
                None => Parsed::Panic,
                Some(false) => Parsed::Fail,
                Some(true) => {
                    let com = action_from(t, &s, 0, p);
                    Parsed::Done(Commands { com, args })
                },
            }
        },
    }
}

/// The position of the first `--name=value` argument called `name`, from position `i` on.
pub open spec fn first_inner_from(args: Seq<ArgView>, name: Seq<char>, i: int) -> Option<int>
    decreases args.len() - i,
{
    if i < 0 || i >= args.len() {
        None
    } else if args[i] matches ArgView::Inner(k, _) && k == name {
        Some(i)
    } else {
        first_inner_from(args, name, i + 1)
    }
}

pub open spec fn first_inner(args: Seq<ArgView>, name: Seq<char>) -> Option<int> {
    first_inner_from(args, name, 0)
}

/// Whether argument `a` is `--name=...` for this `name`.
pub open spec fn names(a: ArgView, name: Seq<char>) -> bool {
    a matches ArgView::Inner(k, _) && k == name
}

/// The argument that a lookup of `name` finds, if any.
pub open spec fn inner_found(args: Seq<ArgView>, name: Seq<char>) -> Option<ArgView> {
    match first_inner(args, name) {
        Some(i) => Some(args[i]),
        None => None,
    }
}

proof fn lemma_first_inner_from(args: Seq<ArgView>, name: Seq<char>, i: int)
    requires
        0 <= i,
    ensures
        first_inner_from(args, name, i) matches Some(j) ==> i <= j < args.len() && names(
            args[j],
            name,
        ) && forall|q: int| i <= q < j ==> !#[trigger] names(args[q], name),
        first_inner_from(args, name, i) is None ==> forall|q: int|
            i <= q < args.len() ==> !#[trigger] names(args[q], name),
    decreases args.len() - i,
{
    if i < args.len() {
        lemma_first_inner_from(args, name, i + 1);
    }
}

/// A lookup by name finds the first `--name=value` argument of that name, wherever it stands
/// and whatever flags come before it, and finds nothing exactly when there is no such argument.
pub proof fn law_lookup_finds_first(args: Seq<ArgView>, name: Seq<char>)
    ensures
        (exists|k: int| 0 <= k < args.len() && #[trigger] names(args[k], name)) <==> first_inner(
            args,
            name,
        ) is Some,
        first_inner(args, name) matches Some(i) ==> 0 <= i < args.len() && names(args[i], name)
            && forall|q: int| 0 <= q < i ==> !#[trigger] names(args[q], name),
{
    lemma_first_inner_from(args, name, 0);
}

/// Flags do not take part in a lookup: taking a flag out of the arguments leaves what a
/// lookup by any name finds unchanged.
pub proof fn law_lookup_ignores_flags(args: Seq<ArgView>, name: Seq<char>, p: int)
    requires
        0 <= p < args.len(),
        args[p] is Flag,
    ensures
        inner_found(args.remove(p), name) == inner_found(args, name),
{
    let a2 = args.remove(p);
    lemma_first_inner_from(args, name, 0);
    lemma_first_inner_from(a2, name, 0);
    assert(!names(args[p], name));
    match first_inner(args, name) {
        Some(i) => {
            let i2 = if p < i {
                i - 1
            } else {
                i
            };
            assert(a2[i2] == args[i]);
            assert(names(a2[i2], name));
            assert forall|q: int| 0 <= q < i2 implies !#[trigger] names(a2[q], name) by {
                if q < p {
                    assert(a2[q] == args[q]);
                } else {
                    assert(a2[q] == args[q + 1]);
                }
            }
            match first_inner(a2, name) {
                Some(j) => {
                    if j < i2 {
                        assert(!names(a2[j], name));
                    }
                    if i2 < j {
                        assert(!names(a2[i2], name));
                    }
                },
                None => {
                    assert(!names(a2[i2], name));
                },
            }
        },
        None => {
            match first_inner(a2, name) {
                Some(j) => {
                    if j < p {
                        assert(a2[j] == args[j]);
                        assert(!names(args[j], name));
                    } else {
                        assert(a2[j] == args[j + 1]);
                        assert(!names(args[j + 1], name));
                    }
                },
                None => {},
            }
        },
    }
}

/// Whether `a` and `b` hold the same text.
fn same_text(a: &str, b: &str) -> (r: bool)
    ensures
        r == (a@ == b@),
{
    let x = chars_of(a);
    let y = chars_of(b);
    if x.len() != y.len() {
        return false;
    }
    let n = x.len();
    let mut i: usize = 0;
    while i < n
        invariant
            n == x@.len(),
            n == y@.len(),
            x@ == a@,
            y@ == b@,
            i <= n,
            forall|k: int| 0 <= k < i ==> x@[k] == y@[k],
        decreases n - i,
    {
        if x[i] != y[i] {
            return false;
        }
        i = i + 1;
    }
    assert(x@ =~= y@);
    true
}

impl Arg {
    /// The name and value of a `--name=value` argument.
    pub fn inner(&self) -> (r: &(String, String))
        requires
            self is Inner,
        ensures
            self@ == ArgView::Inner(r.0@, r.1@),
    {
        match self {
            Arg::Inner(x) => x,
            Arg::Flag(_) => vstd::pervasive::unreached(),
        }
    }
}

impl Commands {
    /// Reads a command line: the action up to the first space (`help`, `stop`, or any other
    /// word), then flags (`-f`, `--flag`) and values (`--name=value`, `--name="a value"`),
    /// each separated by one space. `Err` when the line is empty or an argument is malformed.
    pub fn from_string(src: String) -> (r: Result<Commands, ()>)
        requires
            !(cmd_parse(src@) is Panic),
        ensures
            match cmd_parse(src@) {
                CmdOutcome::Fail => r is Err,
                CmdOutcome::Done(v) => r matches Ok(c) && c@ == v,
                CmdOutcome::Panic => false,
            },
    {
        match parse_command(src.as_str()) {
            Parsed::Done(c) => Ok(c),
            Parsed::Fail => Err(()),
            Parsed::Panic => {
                proof {
                    assert(false);
                }
                Err(())
            },
        }
    }

    /// The value of the first `--name=value` argument called `name`.
    pub fn get_arg_inner(&self, name: &str) -> (r: Result<(String, String), ()>)
        ensures
            match first_inner(self@.args, name@) {
                Some(k) => r matches Ok(p) && self@.args[k] == ArgView::Inner(p.0@, p.1@),
                None => r is Err,
            },
    {
        let n = self.args.len();
        let mut i: usize = 0;
        while i < n
            invariant
                n == self.args@.len(),
                i <= n,
                first_inner(self@.args, name@) == first_inner_from(self@.args, name@, i as int),
            decreases n - i,
        {
            match &self.args[i] {
                Arg::Inner(p) => {
                    if same_text(p.0.as_str(), name) {
                        return Ok((p.0.clone(), p.1.clone()));
                    }
                },
                Arg::Flag(_) => {},
            }
            i = i + 1;
        }
        Err(())
    }

    /// A copy of the arguments.
    pub fn args(&self) -> (r: Vec<Arg>)
        ensures
            args_view(r@) == self@.args,
    {
        let n = self.args.len();
        let mut out: Vec<Arg> = Vec::new();
        let mut i: usize = 0;
        while i < n
            invariant
                n == self.args@.len(),
                i <= n,
                args_view(out@) == args_view(self.args@).take(i as int),
                out@.len() == i,
            decreases n - i,
        {
            let a = match &self.args[i] {
                Arg::Inner(p) => Arg::Inner((p.0.clone(), p.1.clone())),
                Arg::Flag(f) => Arg::Flag(f.clone()),
            };
            assert(a@ == self.args@[i as int]@);
            let ghost prev = out@;
            out.push(a);
            assert forall|k: int| 0 <= k < i + 1 implies #[trigger] args_view(out@)[k] == args_view(
                self.args@,
            ).take(i + 1)[k] by {
                if k < i {
                    assert(args_view(prev)[k] == args_view(self.args@).take(i as int)[k]);
                    assert(out@[k] == prev[k]);
                }
            }
            assert(args_view(out@) =~= args_view(self.args@).take(i + 1));
            i = i + 1;
        }
        assert(args_view(self.args@).take(n as int) =~= args_view(self.args@));
        out
    }

    /// A copy of the action.
    pub fn action(&self) -> (r: Action)
        ensures
            r@ == self@.com,
    {
        match &self.com {
            Action::Help => Action::Help,
            Action::Stop => Action::Stop,
            Action::Unknown(s) => Action::Unknown(s.clone()),
        }
    }

    /// Whether reading `src` as a command line would cut a character of more than one byte.
    pub fn panics_on(src: &String) -> (r: bool)
        ensures
            r == cmd_parse(src@) is Panic,
    {
        match parse_command(src.as_str()) {
            Parsed::Panic => true,
            _ => false,
        }
    }
}

} // verus!
