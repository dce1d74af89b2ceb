//! The kernel shell's command language: how a typed line is edited, split
//! into words and read as a command.
use vstd::prelude::*;
use crate::task::TaskState;
use vstd::std_specs::iter::IteratorSpec;

verus! {

broadcast use {vstd::string::axiom_spec_iter, vstd::string::next_postcondition};

/// `c` has the Unicode White_Space property.
pub open spec fn is_whitespace_spec(c: char) -> bool {
    let v = c as u32;
    ||| 0x09 <= v <= 0x0D
    ||| v == 0x20
    ||| v == 0x85
    ||| v == 0xA0
    ||| v == 0x1680
    ||| 0x2000 <= v <= 0x200A
    ||| v == 0x2028
    ||| v == 0x2029
    ||| v == 0x202F
    ||| v == 0x205F
    ||| v == 0x3000
}

/// Whether `c` has the Unicode White_Space property.
pub fn is_whitespace(c: char) -> (r: bool)
    ensures
        r == is_whitespace_spec(c),
{
    let v = c as u32;
    (0x09 <= v && v <= 0x0D) || v == 0x20 || v == 0x85 || v == 0xA0 || v == 0x1680 || (0x2000
        <= v && v <= 0x200A) || v == 0x2028 || v == 0x2029 || v == 0x202F || v == 0x205F || v
        == 0x3000
}

/// The words of `s`: its maximal runs of characters that are not white
/// space, in order.
pub open spec fn words(s: Seq<char>) -> Seq<Seq<char>>
    decreases s.len(),
{
    if s.len() == 0 {
        Seq::empty()
    } else {
        let w = words(s.drop_last());
        let c = s.last();
        if is_whitespace_spec(c) {
            w
        } else if s.len() >= 2 && !is_whitespace_spec(s[s.len() - 2]) && w.len() > 0 {
            w.update(w.len() - 1, w.last().push(c))
        } else {
            w.push(seq![c])
        }
    }
}

/// The words joined with single spaces.
pub open spec fn join(ws: Seq<Seq<char>>) -> Seq<char>
    decreases ws.len(),
{
    if ws.len() == 0 {
        Seq::empty()
    } else if ws.len() == 1 {
        ws[0]
    } else {
        join(ws.drop_last()) + seq![' '] + ws.last()
    }
}

/// The characters of each word.
pub open spec fn views(ws: Seq<Vec<char>>) -> Seq<Seq<char>> {
    Seq::new(ws.len(), |i: int| ws[i]@)
}

/// The characters of `s`, in order.
pub fn chars_of(s: &str) -> (r: Vec<char>)
    ensures
        r@ == s@,
{
    let mut it = s.chars();
    let mut v: Vec<char> = Vec::new();
    loop
        invariant
            v@ + it.remaining() == s@,
            it.obeys_prophetic_iter_laws(),
            it.decrease() is Some,
        decreases it.decrease()->0,
    {
        match it.next() {
            Some(c) => {
                proof {
                    assert(v@.push(c) + it.remaining() =~= s@);
                }
                v.push(c);
            },
            None => {
                assert(v@ =~= s@);
                return v;
            },
        }
    }
}

/// Splits `s` into its words.
pub fn split_words(s: &[char]) -> (r: Vec<Vec<char>>)
    ensures
        views(r@) == words(s@),
{
    let mut out: Vec<Vec<char>> = Vec::new();
    let mut i: usize = 0;
    while i < s.len()
        invariant
            i <= s@.len(),
            views(out@) == words(s@.take(i as int)),
            i > 0 && !is_whitespace_spec(s@[i - 1]) ==> out@.len() > 0,
        decreases s@.len() - i,
    {
        let c = s[i];
        let ghost prev = s@.take(i as int);
        assert(s@.take(i + 1).drop_last() =~= prev);
        if is_whitespace(c) {
        } else if i > 0 && !is_whitespace(s[i - 1]) {
            let last = out.len() - 1;
            let mut w = out.remove(last);
            w.push(c);
            out.push(w);
            assert(views(out@) =~= words(prev).update(
                words(prev).len() - 1,
                words(prev).last().push(c),
            ));
        } else {
            let mut w: Vec<char> = Vec::new();
            w.push(c);
            out.push(w);
            assert(w@ =~= seq![c]);
            assert(views(out@) =~= words(prev).push(seq![c]));
        }
        i = i + 1;
    }
    assert(s@.take(s@.len() as int) =~= s@);
    out
}

/// Joins `ws[start..]` with single spaces.
pub fn join_from(ws: &Vec<Vec<char>>, start: usize) -> (r: Vec<char>)
    requires
        start <= ws@.len(),
    ensures
        r@ == join(views(ws@).skip(start as int)),
{
    let mut out: Vec<char> = Vec::new();
    if start >= ws.len() {
        assert(views(ws@).skip(start as int) =~= Seq::<Seq<char>>::empty());
        return out;
    }
    let mut i: usize = start;
    while i < ws.len()
        invariant
            start < ws@.len(),
            start <= i <= ws@.len(),
            out@ == join(views(ws@).subrange(start as int, i as int)),
        decreases ws@.len() - i,
    {
        let ghost before = out@;
        if i > start {
            out.push(' ');
        }
        let w = &ws[i];
        let mut k: usize = 0;
        let ghost mid = out@;
        while k < w.len()
            invariant
                k <= w@.len(),
                out@ == mid + w@.take(k as int),
            decreases w@.len() - k,
        {
            out.push(w[k]);
            k = k + 1;
            assert(out@ =~= mid + w@.take(k as int));
        }
        assert(w@.take(w@.len() as int) =~= w@);
        let ghost next = views(ws@).subrange(start as int, i + 1);
        assert(next.drop_last() =~= views(ws@).subrange(start as int, i as int));
        if i == start {
            assert(out@ =~= join(next));
        } else {
            assert(out@ =~= join(next));
        }
        i = i + 1;
    }
    assert(views(ws@).subrange(start as int, ws@.len() as int) =~= views(ws@).skip(start as int));
    out
}

pub const HELP: [char; 4] = ['h', 'e', 'l', 'p'];

pub const USB: [char; 3] = ['u', 's', 'b'];

pub const SHUTDOWN: [char; 8] = ['s', 'h', 'u', 't', 'd', 'o', 'w', 'n'];

pub const REBOOT: [char; 6] = ['r', 'e', 'b', 'o', 'o', 't'];

pub const CLEAR: [char; 5] = ['c', 'l', 'e', 'a', 'r'];

pub const ECHO: [char; 4] = ['e', 'c', 'h', 'o'];

pub const MEMINFO: [char; 7] = ['m', 'e', 'm', 'i', 'n', 'f', 'o'];

pub const UPTIME: [char; 6] = ['u', 'p', 't', 'i', 'm', 'e'];

pub const PS: [char; 2] = ['p', 's'];

pub const CAT: [char; 3] = ['c', 'a', 't'];

pub const LS: [char; 2] = ['l', 's'];

pub const DEVWRITE: [char; 8] = ['d', 'e', 'v', 'w', 'r', 'i', 't', 'e'];

pub const WRITE: [char; 5] = ['w', 'r', 'i', 't', 'e'];

pub const KILL: [char; 4] = ['k', 'i', 'l', 'l'];

/// The path files on the disk are named under.
pub const DISK_PREFIX: [char; 6] = ['/', 'd', 'i', 's', 'k', '/'];

/// The path `cat` reads when given none.
pub const KEYBOARD_PATH: [char; 13] = [
    '/', 'd', 'e', 'v', '/', 'k', 'e', 'y', 'b', 'o', 'a', 'r', 'd',
];

/// The path `devwrite` writes when given none.
pub const NULL_PATH: [char; 9] = ['/', 'd', 'e', 'v', '/', 'n', 'u', 'l', 'l'];

/// Whether `w` spells `lit`.
pub fn word_is(w: &Vec<char>, lit: &[char]) -> (r: bool)
    ensures
        r == (w@ == lit@),
{
    if w.len() != lit.len() {
        return false;
    }
    let mut i: usize = 0;
    while i < w.len()
        invariant
            w@.len() == lit@.len(),
            i <= w@.len(),
            forall|j: int| 0 <= j < i ==> w@[j] == lit@[j],
        decreases w@.len() - i,
    {
        if w[i] != lit[i] {
            return false;
        }
        i = i + 1;
    }
    assert(w@ =~= lit@);
    true
}

/// The value of a run of decimal digits.
pub open spec fn digits_value(d: Seq<char>) -> int
    decreases d.len(),
{
    if d.len() == 0 {
        0
    } else {
        digits_value(d.drop_last()) * 10 + (d.last() as int - '0' as int)
    }
}

/// Every character of `d` is an ASCII digit.
pub open spec fn all_digits(d: Seq<char>) -> bool {
    forall|i: int| 0 <= i < d.len() ==> '0' <= #[trigger] d[i] <= '9'
}

/// What `str::parse::<u64>` accepts: an optional `+`, then one or more ASCII
/// digits whose value fits in 64 bits.
pub open spec fn parse_u64_spec(s: Seq<char>) -> Option<u64> {
    let d = if s.len() > 0 && s[0] == '+' {
        s.skip(1)
    } else {
        s
    };
    if d.len() > 0 && all_digits(d) && digits_value(d) <= u64::MAX {
        Some(digits_value(d) as u64)
    } else {
        None
    }
}

proof fn lemma_digits_value_grows(d: Seq<char>, k: int)
    requires
        all_digits(d),
        0 <= k <= d.len(),
    ensures
        0 <= digits_value(d.take(k)) <= digits_value(d),
    decreases d.len() - k,
{
    if k < d.len() {
        lemma_digits_value_grows(d, k + 1);
        assert(d.take(k + 1).drop_last() =~= d.take(k));
        assert(d.take(k + 1).last() == d[k]);
    } else {
        assert(d.take(k) =~= d);
        lemma_digits_value_nonneg(d);
    }
}

proof fn lemma_digits_value_nonneg(d: Seq<char>)
    requires
        all_digits(d),
    ensures
        digits_value(d) >= 0,
    decreases d.len(),
{
    if d.len() > 0 {
        assert(all_digits(d.drop_last()));
        lemma_digits_value_nonneg(d.drop_last());
    }
}

/// Reads a decimal number as `str::parse::<u64>` does.
pub fn parse_u64(s: &Vec<char>) -> (r: Option<u64>)
    ensures
        r == parse_u64_spec(s@),
{
    let mut i: usize = 0;
    if s.len() > 0 && s[0] == '+' {
        i = 1;
    }
    let start = i;
    let ghost d = if s@.len() > 0 && s@[0] == '+' {
        s@.skip(1)
    } else {
        s@
    };
    assert(d =~= s@.skip(start as int));
    if i >= s.len() {
        return None;
    }
    let mut value: u64 = 0;
    while i < s.len()
        invariant
            start <= i <= s@.len(),
            d == s@.skip(start as int),
            d == (if s@.len() > 0 && s@[0] == '+' {
                s@.skip(1)
            } else {
                s@
            }),
            d.len() > 0,
            all_digits(d.take(i - start)),
            value == digits_value(d.take(i - start)),
        decreases s@.len() - i,
    {
        let c = s[i];
        if c < '0' || c > '9' {
            assert(d[i - start] == c);
            assert(!all_digits(d));
            return None;
        }
        let digit = (c as u32 - '0' as u32) as u64;
        let ghost next = d.take(i - start + 1);
        assert(next.drop_last() =~= d.take(i - start));
        assert(next.last() == c);
        assert(all_digits(next));
        if value > (u64::MAX - digit) / 10 {
            proof {
                assert(digits_value(next) > u64::MAX) by (nonlinear_arith)
                    requires
                        digits_value(next) == value * 10 + digit,
                        value > (u64::MAX - digit) / 10,
                        digit <= 9,
                ;
                if all_digits(d) {
                    lemma_digits_value_grows(d, i - start + 1);
                }
            }
            return None;
        }
        assert(value * 10 + digit <= u64::MAX) by (nonlinear_arith)
            requires
                value <= (u64::MAX - digit) / 10,
                digit <= 9,
        ;
        value = value * 10 + digit;
        i = i + 1;
    }
    assert(d.take(i - start) =~= d);
    Some(value)
}

/// A shell command, as read from a line.
#[derive(Debug)]
pub enum Command {
    /// A blank line.
    Empty,
    Help,
    Usb,
    Shutdown,
    Reboot,
    Clear,
    /// `echo`: its words joined with single spaces.
    Echo(Vec<char>),
    Meminfo,
    Uptime,
    Ps,
    /// `cat /disk/<name>`: the path and the file name.
    CatDisk(Vec<char>, Vec<char>),
    /// `cat` of any other path (the keyboard when none is given).
    CatDevice(Vec<char>),
    Ls,
    /// `devwrite`: the path (`/dev/null` when none is given) and the text.
    DevWrite(Vec<char>, Vec<char>),
    /// `write` with no path.
    WriteUsage,
    /// `write` to a path outside `/disk/`.
    WriteNotDisk,
    /// `write /disk/<name> ...`: the path, the name, and the text with a
    /// newline at its end.
    WriteDisk(Vec<char>, Vec<char>, Vec<char>),
    /// `kill`: the task id, if one was given and is a number.
    Kill(Option<u64>),
    /// Any other first word.
    Unknown(Vec<char>),
}

/// A shell command with its text as character sequences.
pub ghost enum CommandSpec {
    Empty,
    Help,
    Usb,
    Shutdown,
    Reboot,
    Clear,
    Echo(Seq<char>),
    Meminfo,
    Uptime,
    Ps,
    CatDisk(Seq<char>, Seq<char>),
    CatDevice(Seq<char>),
    Ls,
    DevWrite(Seq<char>, Seq<char>),
    WriteUsage,
    WriteNotDisk,
    WriteDisk(Seq<char>, Seq<char>, Seq<char>),
    Kill(Option<u64>),
    Unknown(Seq<char>),
}

impl View for Command {
    type V = CommandSpec;

    open spec fn view(&self) -> CommandSpec {
        match self {
            Command::Empty => CommandSpec::Empty,
            Command::Help => CommandSpec::Help,
            Command::Usb => CommandSpec::Usb,
            Command::Shutdown => CommandSpec::Shutdown,
            Command::Reboot => CommandSpec::Reboot,
            Command::Clear => CommandSpec::Clear,
            Command::Echo(t) => CommandSpec::Echo(t@),
            Command::Meminfo => CommandSpec::Meminfo,
            Command::Uptime => CommandSpec::Uptime,
            Command::Ps => CommandSpec::Ps,
            Command::CatDisk(p, n) => CommandSpec::CatDisk(p@, n@),
            Command::CatDevice(p) => CommandSpec::CatDevice(p@),
            Command::Ls => CommandSpec::Ls,
            Command::DevWrite(p, t) => CommandSpec::DevWrite(p@, t@),
            Command::WriteUsage => CommandSpec::WriteUsage,
            Command::WriteNotDisk => CommandSpec::WriteNotDisk,
            Command::WriteDisk(p, n, t) => CommandSpec::WriteDisk(p@, n@, t@),
            Command::Kill(id) => CommandSpec::Kill(*id),
            Command::Unknown(w) => CommandSpec::Unknown(w@),
        }
    }
}

/// `path` names a file on the disk: it starts with `/disk/`.
pub open spec fn on_disk(path: Seq<char>) -> bool {
    path.len() >= 6 && path.take(6) == DISK_PREFIX@
}

/// The command a line holds: its first word picks the command, the others
/// are its arguments.
pub open spec fn command_spec(line: Seq<char>) -> CommandSpec {
    let ws = words(line);
    if ws.len() == 0 {
        CommandSpec::Empty
    } else {
        let cmd = ws[0];
        let args = ws.skip(1);
        if cmd == HELP@ {
            CommandSpec::Help
        } else if cmd == USB@ {
            CommandSpec::Usb
        } else if cmd == SHUTDOWN@ {
            CommandSpec::Shutdown
        } else if cmd == REBOOT@ {
            CommandSpec::Reboot
        } else if cmd == CLEAR@ {
            CommandSpec::Clear
        } else if cmd == ECHO@ {
            CommandSpec::Echo(join(args))
        } else if cmd == MEMINFO@ {
            CommandSpec::Meminfo
        } else if cmd == UPTIME@ {
            CommandSpec::Uptime
        } else if cmd == PS@ {
            CommandSpec::Ps
        } else if cmd == CAT@ {
            let path = if args.len() > 0 {
                args[0]
            } else {
                KEYBOARD_PATH@
            };
            if on_disk(path) {
                CommandSpec::CatDisk(path, path.skip(6))
            } else {
                CommandSpec::CatDevice(path)
            }
        } else if cmd == LS@ {
            CommandSpec::Ls
        } else if cmd == DEVWRITE@ {
            if args.len() > 0 {
                CommandSpec::DevWrite(args[0], join(args.skip(1)))
            } else {
                CommandSpec::DevWrite(NULL_PATH@, Seq::empty())
            }
        } else if cmd == WRITE@ {
            if args.len() == 0 {
                CommandSpec::WriteUsage
            } else if !on_disk(args[0]) {
                CommandSpec::WriteNotDisk
            } else {
                CommandSpec::WriteDisk(args[0], args[0].skip(6), join(args.skip(1)).push('\n'))
            }
        } else if cmd == KILL@ {
            CommandSpec::Kill(
                if args.len() > 0 {
                    parse_u64_spec(args[0])
                } else {
                    None
                },
            )
        } else {
            CommandSpec::Unknown(cmd)
        }
    }
}

fn copy_chars(s: &[char], from: usize) -> (r: Vec<char>)
    requires
        from <= s@.len(),
    ensures
        r@ == s@.skip(from as int),
{
    let mut out: Vec<char> = Vec::new();
    let mut i: usize = from;
    while i < s.len()
        invariant
            from <= i <= s@.len(),
            out@ == s@.subrange(from as int, i as int),
        decreases s@.len() - i,
    {
        out.push(s[i]);
        i = i + 1;
        assert(out@ =~= s@.subrange(from as int, i as int));
    }
    out
}

fn starts_with_disk(p: &Vec<char>) -> (r: bool)
    ensures
        r == on_disk(p@),
{
    if p.len() < 6 {
        return false;
    }
    let mut i: usize = 0;
    while i < 6
        invariant
            p@.len() >= 6,
            i <= 6,
            forall|j: int| 0 <= j < i ==> p@[j] == DISK_PREFIX@[j],
        decreases 6 - i,
    {
        if p[i] != DISK_PREFIX[i] {
            assert(p@.take(6)[i as int] != DISK_PREFIX@[i as int]);
            return false;
        }
        i = i + 1;
    }
    assert(p@.take(6) =~= DISK_PREFIX@);
    true
}

/// Reads the command a typed line holds.
pub fn parse_command(line: &str) -> (r: Command)
    ensures
        r@ == command_spec(line@),
{
    let chars = chars_of(line);
    let ws = split_words(chars.as_slice());
    if ws.len() == 0 {
        return Command::Empty;
    }
    let ghost args = views(ws@).skip(1);
    assert(views(ws@).skip(1) =~= args);
    let cmd = &ws[0];
    if word_is(cmd, HELP.as_slice()) {
        Command::Help
    } else if word_is(cmd, USB.as_slice()) {
        Command::Usb
    } else if word_is(cmd, SHUTDOWN.as_slice()) {
        Command::Shutdown
    } else if word_is(cmd, REBOOT.as_slice()) {
        Command::Reboot
    } else if word_is(cmd, CLEAR.as_slice()) {
        Command::Clear
    } else if word_is(cmd, ECHO.as_slice()) {
        Command::Echo(join_from(&ws, 1))
    } else if word_is(cmd, MEMINFO.as_slice()) {
        Command::Meminfo
    } else if word_is(cmd, UPTIME.as_slice()) {
        Command::Uptime
    } else if word_is(cmd, PS.as_slice()) {
        Command::Ps
    } else if word_is(cmd, CAT.as_slice()) {
        let path: Vec<char> = if ws.len() > 1 {
            copy_chars(ws[1].as_slice(), 0)
        } else {
            copy_chars(KEYBOARD_PATH.as_slice(), 0)
        };
        proof {
            assert(ws@[1]@.skip(0) =~= ws@[1]@);
            assert(KEYBOARD_PATH@.skip(0) =~= KEYBOARD_PATH@);
        }
        if starts_with_disk(&path) {
            let name = copy_chars(path.as_slice(), 6);
            Command::CatDisk(path, name)
        } else {
            Command::CatDevice(path)
        }
    } else if word_is(cmd, LS.as_slice()) {
        Command::Ls
    } else if word_is(cmd, DEVWRITE.as_slice()) {
        if ws.len() > 1 {
            let path = copy_chars(ws[1].as_slice(), 0);
            assert(ws@[1]@.skip(0) =~= ws@[1]@);
            let text = join_from(&ws, 2);
            assert(views(ws@).skip(2) =~= args.skip(1));
            Command::DevWrite(path, text)
        } else {
            let path = copy_chars(NULL_PATH.as_slice(), 0);
            assert(NULL_PATH@.skip(0) =~= NULL_PATH@);
            Command::DevWrite(path, Vec::new())
        }
    } else if word_is(cmd, WRITE.as_slice()) {
        if ws.len() < 2 {
            Command::WriteUsage
        } else {
            let path = copy_chars(ws[1].as_slice(), 0);
            assert(ws@[1]@.skip(0) =~= ws@[1]@);
            if !starts_with_disk(&path) {
                Command::WriteNotDisk
            } else {
                let name = copy_chars(path.as_slice(), 6);
                let mut text = join_from(&ws, 2);
                assert(views(ws@).skip(2) =~= args.skip(1));
                text.push('\n');
                Command::WriteDisk(path, name, text)
            }
        }
    } else if word_is(cmd, KILL.as_slice()) {
        if ws.len() > 1 {
            Command::Kill(parse_u64(&ws[1]))
        } else {
            Command::Kill(None)
        }
    } else {
        let w = copy_chars(cmd.as_slice(), 0);
        assert(cmd@.skip(0) =~= cmd@);
        Command::Unknown(w)
    }
}

/// What `ps` shows for a task's state.
pub fn state_name(state: TaskState) -> (r: &'static str)
    ensures
        r@ == (match state {
            TaskState::Ready => "ready"@,
            TaskState::Blocked(_) => "blocked"@,
        }),
{
    match state {
        TaskState::Ready => "ready",
        TaskState::Blocked(_) => "blocked",
    }
}

/// What a typed character does to the line being edited.
#[derive(Debug, Clone, Copy, PartialEq, Eq, Structural)]
pub enum Edit {
    /// Enter: the line is complete.
    Submit,
    /// Backspace or delete took the last character off (the screen erases it).
    Erased,
    /// Backspace or delete on an empty line.
    NothingToErase,
    /// The character was added (the screen shows it).
    Typed,
    /// Another control character: ignored.
    Ignored,
}

/// What typing `c` makes of the line being edited, and what the screen
/// shows of it: a newline submits the line; backspace or delete takes the
/// last character off, if any; another control character is ignored; any
/// other character is added.
pub open spec fn edited(line: Seq<char>, c: char) -> (Seq<char>, Edit) {
    if c == '\n' {
        (line, Edit::Submit)
    } else if c == '\u{8}' || c == '\u{7f}' {
        if line.len() > 0 {
            (line.drop_last(), Edit::Erased)
        } else {
            (line, Edit::NothingToErase)
        }
    } else if crate::devfs::is_control_spec(c) {
        (line, Edit::Ignored)
    } else {
        (line.push(c), Edit::Typed)
    }
}

/// A backspace undoes the character just typed: typing `c` and then
/// backspace (or delete) leaves the line as it was, and the screen erases
/// what it showed.
pub proof fn lemma_backspace_undoes_typing(line: Seq<char>, c: char, erase: char)
    requires
        edited(line, c).1 == Edit::Typed,
        erase == '\u{8}' || erase == '\u{7f}',
    ensures
        edited(edited(line, c).0, erase) == (line, Edit::Erased),
{
    assert(line.push(c).drop_last() =~= line);
}

/// Applies a typed character to the line being edited.
pub fn edit_line(line: &mut Vec<char>, c: char) -> (r: Edit)
    ensures
        (final(line)@, r) == edited(old(line)@, c),
{
    if c == '\n' {
        Edit::Submit
    } else if c == '\u{8}' || c == '\u{7f}' {
        match line.pop() {
            Some(_) => Edit::Erased,
            None => Edit::NothingToErase,
        }
    } else if !crate::devfs::is_control(c) {
        line.push(c);
        Edit::Typed
    } else {
        Edit::Ignored
    }
}

/// `w` is a word: not empty, and no white space in it.
pub open spec fn is_word(w: Seq<char>) -> bool {
    w.len() > 0 && forall|k: int| 0 <= k < w.len() ==> !is_whitespace_spec(#[trigger] w[k])
}

/// What `words` gives are words.
pub proof fn lemma_words_are_words(s: Seq<char>)
    ensures
        forall|i: int| 0 <= i < words(s).len() ==> is_word(#[trigger] words(s)[i]),
    decreases s.len(),
{
    if s.len() > 0 {
        lemma_words_are_words(s.drop_last());
        let w = words(s.drop_last());
        let c = s.last();
        if !is_whitespace_spec(c) && s.len() >= 2 && !is_whitespace_spec(s[s.len() - 2]) && w.len()
            > 0 {
            let v = w.last().push(c);
            assert(is_word(w[w.len() - 1]));
            assert forall|k: int| 0 <= k < v.len() implies !is_whitespace_spec(#[trigger] v[k]) by {
                if k < v.len() - 1 {
                    assert(v[k] == w[w.len() - 1][k]);
                }
            }
            assert forall|i: int| 0 <= i < words(s).len() implies is_word(#[trigger] words(s)[i]) by {
                if i < w.len() - 1 {
                    assert(words(s)[i] == w[i]);
                }
            }
        } else if !is_whitespace_spec(c) {
            assert(is_word(seq![c]));
            assert forall|i: int| 0 <= i < words(s).len() implies is_word(#[trigger] words(s)[i]) by {
                if i < w.len() {
                    assert(words(s)[i] == w[i]);
                }
            }
        }
    }
}

/// The words of a line that ends in a space and then a word are the words
/// before, then that word.
proof fn lemma_words_after_space(a: Seq<char>, w: Seq<char>)
    requires
        is_word(w),
    ensures
        words(a + seq![' '] + w) == words(a).push(w),
    decreases w.len(),
{
    let s = a + seq![' '] + w;
    assert(is_whitespace_spec(' '));
    assert((a + seq![' ']).drop_last() =~= a);
    assert(words(a + seq![' ']) == words(a));
    if w.len() == 1 {
        assert(s.drop_last() =~= a + seq![' ']);
        assert(s[s.len() - 2] == ' ');
        assert(!is_whitespace_spec(w[0]));
        assert(seq![s.last()] =~= w);
    } else {
        let w0 = w.drop_last();
        assert(is_word(w0)) by {
            assert forall|k: int| 0 <= k < w0.len() implies !is_whitespace_spec(#[trigger] w0[k]) by {
                assert(w0[k] == w[k]);
            }
        }
        lemma_words_after_space(a, w0);
        assert(s.drop_last() =~= a + seq![' '] + w0);
        assert(s[s.len() - 2] == w[w.len() - 2]);
        assert(!is_whitespace_spec(w[w.len() - 2]));
        assert(!is_whitespace_spec(w[w.len() - 1]));
        assert(w0.push(s.last()) =~= w);
        assert(words(a).push(w0).update(words(a).len() as int, w) =~= words(a).push(w));
    }
}

/// Joining words with single spaces and splitting the result gives the
/// same words back.
pub proof fn lemma_words_of_join(ws: Seq<Seq<char>>)
    requires
        forall|i: int| 0 <= i < ws.len() ==> is_word(#[trigger] ws[i]),
    ensures
        words(join(ws)) == ws,
    decreases ws.len(),
{
    if ws.len() == 1 {
        assert(is_word(ws[0]));
        lemma_words_single(ws[0]);
        assert(ws =~= seq![ws[0]]);
    } else if ws.len() >= 2 {
        let init = ws.drop_last();
        assert(is_word(ws[ws.len() - 1]));
        assert forall|i: int| 0 <= i < init.len() implies is_word(#[trigger] init[i]) by {
            assert(init[i] == ws[i]);
        }
        lemma_words_of_join(init);
        lemma_words_after_space(join(init), ws.last());
        assert(init.push(ws.last()) =~= ws);
    }
}

/// A single word is its line's only word.
proof fn lemma_words_single(w: Seq<char>)
    requires
        is_word(w),
    ensures
        words(w) == seq![w],
    decreases w.len(),
{
    if w.len() == 1 {
        assert(w.drop_last() =~= Seq::<char>::empty());
        assert(words(w.drop_last()) == Seq::<Seq<char>>::empty());
        assert(!is_whitespace_spec(w[0]));
        assert(seq![w[0]] =~= w);
    } else {
        let w0 = w.drop_last();
        assert(is_word(w0)) by {
            assert forall|k: int| 0 <= k < w0.len() implies !is_whitespace_spec(#[trigger] w0[k]) by {
                assert(w0[k] == w[k]);
            }
        }
        lemma_words_single(w0);
        assert(words(w.drop_last()) == seq![w0]);
        assert(!is_whitespace_spec(w[w.len() - 2]));
        assert(!is_whitespace_spec(w[w.len() - 1]));
        assert(w0.push(w.last()) =~= w);
        assert(seq![w0].update(0, w) =~= seq![w]);
    }
}

/// `devwrite p w1 ... wn` writes to the path `p` the words after it joined
/// with single spaces: the text holds exactly the words `w1 ... wn`, the
/// path not among them; with no path given it writes nothing to
/// `/dev/null`.
pub proof fn lemma_devwrite_text(line: Seq<char>)
    requires
        words(line).len() >= 1,
        words(line)[0] == DEVWRITE@,
    ensures
        words(line).len() == 1 ==> command_spec(line) == CommandSpec::DevWrite(
            NULL_PATH@,
            Seq::empty(),
        ),
        words(line).len() >= 2 ==> command_spec(line) == CommandSpec::DevWrite(
            words(line)[1],
            join(words(line).subrange(2, words(line).len() as int)),
        ),
        words(line).len() >= 2 ==> (command_spec(line) matches CommandSpec::DevWrite(_, text)
            && words(text) == words(line).subrange(2, words(line).len() as int)),
{
    let ws = words(line);
    assert(DEVWRITE@ != HELP@ && DEVWRITE@ != USB@ && DEVWRITE@ != SHUTDOWN@ && DEVWRITE@ != REBOOT@
        && DEVWRITE@ != CLEAR@ && DEVWRITE@ != ECHO@ && DEVWRITE@ != MEMINFO@ && DEVWRITE@
        != UPTIME@ && DEVWRITE@ != PS@ && DEVWRITE@ != CAT@ && DEVWRITE@ != LS@) by {
        assert(DEVWRITE@.len() == 8);
        assert(DEVWRITE@[0] == 'd');
    }
    if ws.len() >= 2 {
        let rest = ws.subrange(2, ws.len() as int);
        assert(ws.skip(1).skip(1) =~= rest);
        assert(ws.skip(1)[0] == ws[1]);
        lemma_words_are_words(line);
        assert forall|i: int| 0 <= i < rest.len() implies is_word(#[trigger] rest[i]) by {
            assert(rest[i] == ws[i + 2]);
        }
        lemma_words_of_join(rest);
    }
}

/// `echo w1 ... wn` echoes its words joined with single spaces: the text
/// holds exactly the words after `echo`.
pub proof fn lemma_echo_text(line: Seq<char>)
    requires
        words(line).len() >= 1,
        words(line)[0] == ECHO@,
    ensures
        command_spec(line) == CommandSpec::Echo(join(words(line).skip(1))),
        command_spec(line) matches CommandSpec::Echo(text) && words(text) == words(line).skip(1),
{
    let ws = words(line);
    assert(ECHO@ != HELP@ && ECHO@ != USB@ && ECHO@ != SHUTDOWN@ && ECHO@ != REBOOT@ && ECHO@
        != CLEAR@) by {
        assert(ECHO@.len() == 4);
        assert(ECHO@[0] == 'e');
    }
    let rest = ws.skip(1);
    lemma_words_are_words(line);
    assert forall|i: int| 0 <= i < rest.len() implies is_word(#[trigger] rest[i]) by {
        assert(rest[i] == ws[i + 1]);
    }
    lemma_words_of_join(rest);
}

/// `write p w1 ... wn` with `p` under `/disk/` writes to the file named by
/// what follows `/disk/` the words after the path joined with single spaces
/// and ended with a newline: the text holds exactly the words `w1 ... wn`.
/// A path elsewhere is refused, and no path at all asks for one.
pub proof fn lemma_write_text(line: Seq<char>)
    requires
        words(line).len() >= 1,
        words(line)[0] == WRITE@,
    ensures
        words(line).len() == 1 ==> command_spec(line) == CommandSpec::WriteUsage,
        words(line).len() >= 2 && !on_disk(words(line)[1]) ==> command_spec(line)
            == CommandSpec::WriteNotDisk,
        words(line).len() >= 2 && on_disk(words(line)[1]) ==> ({
            let path = words(line)[1];
            let rest = words(line).subrange(2, words(line).len() as int);
            &&& path.take(6) == DISK_PREFIX@
            &&& command_spec(line) == CommandSpec::WriteDisk(path, path.skip(6), join(rest).push('\n'))
            &&& command_spec(line) matches CommandSpec::WriteDisk(_, name, text) && path == DISK_PREFIX@
                + name && text.last() == '\n' && words(text) == rest
        }),
{
    let ws = words(line);
    assert(WRITE@ != HELP@ && WRITE@ != USB@ && WRITE@ != SHUTDOWN@ && WRITE@ != REBOOT@ && WRITE@
        != CLEAR@ && WRITE@ != ECHO@ && WRITE@ != MEMINFO@ && WRITE@ != UPTIME@ && WRITE@ != PS@
        && WRITE@ != CAT@ && WRITE@ != LS@ && WRITE@ != DEVWRITE@) by {
        assert(WRITE@.len() == 5);
        assert(WRITE@[0] == 'w');
        assert(CLEAR@.len() == 5);
        assert(CLEAR@[0] == 'c');
    }
    if ws.len() >= 2 {
        let path = ws[1];
        let rest = ws.subrange(2, ws.len() as int);
        assert(ws.skip(1).skip(1) =~= rest);
        assert(ws.skip(1)[0] == ws[1]);
        if on_disk(path) {
            assert(path =~= path.take(6) + path.skip(6));
            lemma_words_are_words(line);
            assert forall|i: int| 0 <= i < rest.len() implies is_word(#[trigger] rest[i]) by {
                assert(rest[i] == ws[i + 2]);
            }
            lemma_words_of_join(rest);
            let j = join(rest);
            assert(j.push('\n').drop_last() =~= j);
            assert(is_whitespace_spec('\n'));
        }
    }
}

} // verus!
