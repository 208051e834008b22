//! The kernel shell's line buffer and the console state.
use vstd::prelude::*;
use crate::cap::Capability;
use crate::bytes::is_utf8;
use vstd::utf8::valid_utf8;

verus! {

/// Bytes a shell line holds.
pub const SHELL_BUFFER_SIZE: usize = 128;

/// The line being typed: up to 128 bytes.
pub struct ShellBuffer {
    pub buffer: Vec<u8>,
}

impl ShellBuffer {
    pub open spec fn wf(&self) -> bool {
        self.buffer@.len() <= SHELL_BUFFER_SIZE
    }

    /// An empty line.
    pub fn new() -> (r: Self)
        ensures
            r.wf(),
            r.buffer@.len() == 0,
    {
        ShellBuffer { buffer: Vec::new() }
    }

    /// Appends a byte; a full line ignores it.
    pub fn push(&mut self, c: u8)
        requires
            old(self).wf(),
        ensures
            final(self).wf(),
            final(self).buffer@ == if old(self).buffer@.len() < SHELL_BUFFER_SIZE { old(self).buffer@.push(c) } else { old(self).buffer@ },
    {
        if self.buffer.len() < SHELL_BUFFER_SIZE {
            self.buffer.push(c);
        }
    }

    /// Removes the last byte, if any.
    pub fn pop(&mut self)
        requires
            old(self).wf(),
        ensures
            final(self).wf(),
            final(self).buffer@ == if old(self).buffer@.len() > 0 { old(self).buffer@.drop_last() } else { old(self).buffer@ },
    {
        if self.buffer.len() > 0 {
            self.buffer.pop();
        }
    }

    /// The line's bytes when they are UTF-8, nothing otherwise.
    pub fn as_str(&self) -> (r: Vec<u8>)
        ensures
            r@ == if valid_utf8(self.buffer@) { self.buffer@ } else { Seq::empty() },
    {
        if is_utf8(self.buffer.as_slice()) {
            self.buffer.clone()
        } else {
            Vec::new()
        }
    }

    /// Empties the line.
    pub fn clear(&mut self)
        ensures
            final(self).wf(),
            final(self).buffer@.len() == 0,
    {
        self.buffer.clear();
    }

    pub fn len(&self) -> (r: usize)
        ensures
            r == self.buffer@.len(),
    {
        self.buffer.len()
    }
}

/// The console's settings: whether kernel messages are printed, and the
/// endpoint that console output is forwarded to.
pub struct ConsoleState {
    pub verbose: bool,
    pub endpoint: Option<Capability>,
}

impl ConsoleState {
    /// Verbose, with no endpoint.
    pub fn new() -> (r: Self)
        ensures
            r.verbose && r.endpoint.is_none(),
    {
        ConsoleState { verbose: true, endpoint: None }
    }

    pub fn set_console_endpoint(&mut self, ep: Option<Capability>)
        ensures
            final(self).endpoint == ep,
            final(self).verbose == old(self).verbose,
    {
        self.endpoint = ep;
    }

    pub fn get_console_endpoint(&self) -> (r: Option<Capability>)
        ensures
            r == self.endpoint,
    {
        self.endpoint
    }

    pub fn is_verbose(&self) -> (r: bool)
        ensures
            r == self.verbose,
    {
        self.verbose
    }

    pub fn set_verbose(&mut self, enable: bool)
        ensures
            final(self).verbose == enable,
            final(self).endpoint == old(self).endpoint,
    {
        self.verbose = enable;
    }
}

/// The length of the whitespace character encoded in UTF-8 at `i` (0 when
/// there is none): tab, line feed, vertical tab, form feed, carriage return
/// and space take one byte; U+0085 and U+00A0 two; U+1680, U+2000 to U+200A,
/// U+2028, U+2029, U+202F, U+205F and U+3000 three.
pub open spec fn ws_len(s: Seq<u8>, i: int) -> int {
    if i < 0 || i >= s.len() {
        0
    } else if (9 <= s[i] && s[i] <= 13) || s[i] == 32 {
        1
    } else if s[i] == 0xC2 && i + 1 < s.len() && (s[i + 1] == 0x85 || s[i + 1] == 0xA0) {
        2
    } else if i + 2 < s.len() && (
        (s[i] == 0xE1 && s[i + 1] == 0x9A && s[i + 2] == 0x80)
        || (s[i] == 0xE2 && s[i + 1] == 0x80 && ((0x80 <= s[i + 2] && s[i + 2] <= 0x8A)
            || s[i + 2] == 0xA8 || s[i + 2] == 0xA9 || s[i + 2] == 0xAF))
        || (s[i] == 0xE2 && s[i + 1] == 0x81 && s[i + 2] == 0x9F)
        || (s[i] == 0xE3 && s[i + 1] == 0x80 && s[i + 2] == 0x80)) {
        3
    } else {
        0
    }
}

/// The end of the word that starts at `i`: the first whitespace from `i` on.
pub open spec fn word_end(s: Seq<u8>, i: int) -> int
    decreases s.len() - i,
{
    if i < 0 || i >= s.len() || ws_len(s, i) > 0 {
        i
    } else {
        word_end(s, i + 1)
    }
}

/// The whitespace-separated words of `s` from position `i` on.
pub open spec fn words_from(s: Seq<u8>, i: int) -> Seq<Seq<u8>>
    decreases s.len() - i,
{
    if i < 0 || i >= s.len() {
        Seq::empty()
    } else if ws_len(s, i) > 0 {
        words_from(s, i + ws_len(s, i))
    } else {
        let k = word_end(s, i);
        if i < k <= s.len() {
            seq![s.subrange(i, k)] + words_from(s, k)
        } else {
            Seq::empty()
        }
    }
}

proof fn lemma_word_end(s: Seq<u8>, i: int)
    requires
        0 <= i <= s.len(),
    ensures
        i <= word_end(s, i) <= s.len(),
        forall|j: int| i <= j < word_end(s, i) ==> ws_len(s, j) == 0,
        word_end(s, i) < s.len() ==> ws_len(s, word_end(s, i)) > 0,
    decreases s.len() - i,
{
    if i < s.len() && ws_len(s, i) == 0 {
        lemma_word_end(s, i + 1);
    }
}

fn ws_len_exec(s: &[u8], i: usize) -> (r: usize)
    requires
        i < s@.len(),
    ensures
        r == ws_len(s@, i as int),
        i + r <= s@.len(),
{
    let n = s.len();
    let c = s[i];
    if (9 <= c && c <= 13) || c == 32 {
        return 1;
    }
    if c == 0xC2 && n - i > 1 && (s[i + 1] == 0x85 || s[i + 1] == 0xA0) {
        return 2;
    }
    if n - i > 2 {
        let c1 = s[i + 1];
        let c2 = s[i + 2];
        if (c == 0xE1 && c1 == 0x9A && c2 == 0x80)
            || (c == 0xE2 && c1 == 0x80 && ((0x80 <= c2 && c2 <= 0x8A) || c2 == 0xA8 || c2 == 0xA9 || c2 == 0xAF))
            || (c == 0xE2 && c1 == 0x81 && c2 == 0x9F)
            || (c == 0xE3 && c1 == 0x80 && c2 == 0x80) {
            return 3;
        }
    }
    0
}

/// Splits a line into its whitespace-separated words.
pub fn split_words(line: &[u8]) -> (r: Vec<Vec<u8>>)
    ensures
        r@.len() == words_from(line@, 0).len(),
        forall|k: int| 0 <= k < r@.len() ==> (#[trigger] r@[k])@ == words_from(line@, 0)[k],
{
    let mut out: Vec<Vec<u8>> = Vec::new();
    let ghost mut acc: Seq<Seq<u8>> = Seq::empty();
    let n = line.len();
    let mut i: usize = 0;
    while i < n
        invariant
            n == line@.len(),
            i <= n,
            out@.len() == acc.len(),
            forall|k: int| 0 <= k < acc.len() ==> (#[trigger] out@[k])@ == acc[k],
            words_from(line@, 0) == acc + words_from(line@, i as int),
        decreases n - i,
    {
        let w = ws_len_exec(line, i);
        if w > 0 {
            i = i + w;
        } else {
            proof {
                lemma_word_end(line@, i as int);
            }
            let start = i;
            let mut word: Vec<u8> = Vec::new();
            while i < n && ws_len_exec(line, i) == 0
                invariant
                    n == line@.len(),
                    start <= i <= n,
                    word_end(line@, start as int) == word_end(line@, i as int),
                    word@ == line@.subrange(start as int, i as int),
                decreases n - i,
            {
                word.push(line[i]);
                i = i + 1;
                proof {
                    assert(word@ =~= line@.subrange(start as int, i as int));
                }
            }
            proof {
                let k = word_end(line@, start as int);
                assert(k == i as int);
                assert(words_from(line@, start as int) == seq![line@.subrange(start as int, k)] + words_from(line@, k));
                acc = acc.push(word@);
                assert(words_from(line@, 0) =~= acc + words_from(line@, i as int));
            }
            out.push(word);
        }
    }
    proof {
        assert(words_from(line@, i as int) =~= Seq::<Seq<u8>>::empty());
        assert(acc + Seq::<Seq<u8>>::empty() =~= acc);
    }
    out
}

/// A shell command line, decoded.
#[derive(Debug)]
pub enum ShellCommand {
    Nothing,
    Help,
    Info,
    Mem,
    Sched,
    Kpt,
    Debug(Vec<u8>, Vec<u8>),
    DebugUsage,
    Inspect(Vec<u8>, Vec<u8>),
    InspectUsage,
    Shutdown,
    Reboot,
    Unknown(Vec<u8>),
}

/// Two byte strings are equal.
fn bytes_eq(a: &[u8], b: &[u8]) -> (r: bool)
    ensures
        r == (a@ == b@),
{
    if a.len() != b.len() {
        return false;
    }
    let mut i: usize = 0;
    while i < a.len()
        invariant
            a@.len() == b@.len(),
            i <= a@.len(),
            forall|k: int| 0 <= k < i ==> a@[k] == b@[k],
        decreases a@.len() - i,
    {
        if a[i] != b[i] {
            return false;
        }
        i = i + 1;
    }
    proof {
        assert(a@ =~= b@);
    }
    true
}

/// The command a line asks for: nothing for a blank line; the first word names
/// the command; `debug` and `inspect` take the next two words (or give their
/// usage); any other word is unknown.
pub open spec fn command_of(words: Seq<Seq<u8>>) -> int {
    if words.len() == 0 {
        0
    } else {
        let c = words[0];
        if c == seq![104u8, 101, 108, 112] { 1 }
        else if c == seq![105u8, 110, 102, 111] { 2 }
        else if c == seq![109u8, 101, 109] { 3 }
        else if c == seq![115u8, 99, 104, 101, 100] { 4 }
        else if c == seq![107u8, 112, 116] { 5 }
        else if c == seq![100u8, 101, 98, 117, 103] { if words.len() >= 3 { 6 } else { 7 } }
        else if c == seq![105u8, 110, 115, 112, 101, 99, 116] { if words.len() >= 3 { 8 } else { 9 } }
        else if c == seq![115u8, 104, 117, 116, 100, 111, 119, 110] { 10 }
        else if c == seq![114u8, 101, 98, 111, 111, 116] { 11 }
        else { 12 }
    }
}

/// Which command a decoded line is, numbered as `command_of` numbers them.
pub open spec fn command_kind(c: ShellCommand) -> int {
    match c {
        ShellCommand::Nothing => 0,
        ShellCommand::Help => 1,
        ShellCommand::Info => 2,
        ShellCommand::Mem => 3,
        ShellCommand::Sched => 4,
        ShellCommand::Kpt => 5,
        ShellCommand::Debug(_, _) => 6,
        ShellCommand::DebugUsage => 7,
        ShellCommand::Inspect(_, _) => 8,
        ShellCommand::InspectUsage => 9,
        ShellCommand::Shutdown => 10,
        ShellCommand::Reboot => 11,
        ShellCommand::Unknown(_) => 12,
    }
}

/// Decodes a command line (see `command_of`); the arguments of `debug` and
/// `inspect` and the name of an unknown command are the words themselves.
pub fn parse_command(line: &[u8]) -> (r: ShellCommand)
    ensures
        command_kind(r) == command_of(words_from(line@, 0)),
        r matches ShellCommand::Debug(a, t) ==> a@ == words_from(line@, 0)[1] && t@ == words_from(line@, 0)[2],
        r matches ShellCommand::Inspect(a, l) ==> a@ == words_from(line@, 0)[1] && l@ == words_from(line@, 0)[2],
        r matches ShellCommand::Unknown(c) ==> c@ == words_from(line@, 0)[0],
{
    let words = split_words(line);
    let ghost w = words_from(line@, 0);
    if words.len() == 0 {
        return ShellCommand::Nothing;
    }
    let c = words[0].as_slice();
    proof {
        assert(c@ == w[0]);
    }
    let help: [u8; 4] = [104, 101, 108, 112];
    let info: [u8; 4] = [105, 110, 102, 111];
    let mem: [u8; 3] = [109, 101, 109];
    let sched: [u8; 5] = [115, 99, 104, 101, 100];
    let kpt: [u8; 3] = [107, 112, 116];
    let debug: [u8; 5] = [100, 101, 98, 117, 103];
    let inspect: [u8; 7] = [105, 110, 115, 112, 101, 99, 116];
    let shutdown: [u8; 8] = [115, 104, 117, 116, 100, 111, 119, 110];
    let reboot: [u8; 6] = [114, 101, 98, 111, 111, 116];
    proof {
        assert(help@ =~= seq![104u8, 101, 108, 112]);
        assert(info@ =~= seq![105u8, 110, 102, 111]);
        assert(mem@ =~= seq![109u8, 101, 109]);
        assert(sched@ =~= seq![115u8, 99, 104, 101, 100]);
        assert(kpt@ =~= seq![107u8, 112, 116]);
        assert(debug@ =~= seq![100u8, 101, 98, 117, 103]);
        assert(inspect@ =~= seq![105u8, 110, 115, 112, 101, 99, 116]);
        assert(shutdown@ =~= seq![115u8, 104, 117, 116, 100, 111, 119, 110]);
        assert(reboot@ =~= seq![114u8, 101, 98, 111, 111, 116]);
    }
    if bytes_eq(c, help.as_slice()) {
        ShellCommand::Help
    } else if bytes_eq(c, info.as_slice()) {
        ShellCommand::Info
    } else if bytes_eq(c, mem.as_slice()) {
        ShellCommand::Mem
    } else if bytes_eq(c, sched.as_slice()) {
        ShellCommand::Sched
    } else if bytes_eq(c, kpt.as_slice()) {
        ShellCommand::Kpt
    } else if bytes_eq(c, debug.as_slice()) {
        if words.len() >= 3 {
            ShellCommand::Debug(words[1].clone(), words[2].clone())
        } else {
            ShellCommand::DebugUsage
        }
    } else if bytes_eq(c, inspect.as_slice()) {
        if words.len() >= 3 {
            ShellCommand::Inspect(words[1].clone(), words[2].clone())
        } else {
            ShellCommand::InspectUsage
        }
    } else if bytes_eq(c, shutdown.as_slice()) {
        ShellCommand::Shutdown
    } else if bytes_eq(c, reboot.as_slice()) {
        ShellCommand::Reboot
    } else {
        ShellCommand::Unknown(words[0].clone())
    }
}

/// The value of a digit byte in `radix` (10 or 16; letters in either case).
pub open spec fn digit_value(c: u8, radix: int) -> Option<int> {
    let d: int = if 48 <= c <= 57 { c - 48 } else if 97 <= c <= 122 { c - 97 + 10 } else if 65 <= c <= 90 { c - 65 + 10 } else { 99 };
    if d < radix { Some(d) } else { None }
}

/// Every byte is a digit in `radix`.
pub open spec fn digits_ok(s: Seq<u8>, radix: int) -> bool {
    forall|i: int| 0 <= i < s.len() ==> (#[trigger] digit_value(s[i], radix)) is Some
}

/// The value of a string of digits in `radix`.
pub open spec fn digits_val(s: Seq<u8>, radix: int) -> int
    decreases s.len(),
{
    if s.len() == 0 {
        0
    } else {
        digits_val(s.drop_last(), radix) * radix + digit_value(s.last(), radix)->0
    }
}

/// The number a word spells, as the shell reads addresses and lengths: hex
/// after a `0x` prefix, decimal otherwise; one leading `+` is allowed; `None`
/// when there are no digits, a byte is not a digit, or the value does not fit
/// in a `usize`.
pub open spec fn number_of(tok: Seq<u8>) -> Option<int> {
    let hex = tok.len() >= 2 && tok[0] == 48 && tok[1] == 120;
    let body = if hex { tok.subrange(2, tok.len() as int) } else { tok };
    let radix: int = if hex { 16 } else { 10 };
    let digits = if body.len() > 0 && body[0] == 43 { body.subrange(1, body.len() as int) } else { body };
    if digits.len() == 0 || !digits_ok(digits, radix) || digits_val(digits, radix) > usize::MAX {
        None
    } else {
        Some(digits_val(digits, radix))
    }
}

proof fn lemma_digits_val_grows(s: Seq<u8>, radix: int, j: int)
    requires
        radix >= 2,
        0 <= j <= s.len(),
        digits_ok(s, radix),
    ensures
        digits_val(s.subrange(0, j), radix) <= digits_val(s, radix),
        digits_val(s, radix) >= 0,
    decreases s.len() - j,
{
    lemma_digits_nonneg(s, radix);
    if j < s.len() {
        lemma_digits_val_grows(s, radix, j + 1);
        let a = s.subrange(0, j);
        let b = s.subrange(0, j + 1);
        assert(b.drop_last() =~= a);
        lemma_digits_nonneg(a, radix);
        assert(digit_value(s[j], radix) is Some);
        assert(digits_val(b, radix) == digits_val(a, radix) * radix + digit_value(s[j], radix)->0);
        assert(digits_val(a, radix) * radix >= digits_val(a, radix)) by (nonlinear_arith)
            requires
                digits_val(a, radix) >= 0,
                radix >= 2,
        ;
    } else {
        assert(s.subrange(0, j) =~= s);
    }
}

proof fn lemma_digits_nonneg(s: Seq<u8>, radix: int)
    requires
        radix >= 2,
        digits_ok(s, radix),
    ensures
        digits_val(s, radix) >= 0,
    decreases s.len(),
{
    if s.len() > 0 {
        let t = s.drop_last();
        assert forall|i: int| 0 <= i < t.len() implies (#[trigger] digit_value(t[i], radix)) is Some by {
            assert(t[i] == s[i]);
        }
        lemma_digits_nonneg(t, radix);
        assert(digit_value(s[s.len() - 1], radix) is Some);
        assert(digits_val(t, radix) * radix >= 0) by (nonlinear_arith)
            requires
                digits_val(t, radix) >= 0,
                radix >= 2,
        ;
    }
}

fn digit_exec(c: u8, radix: u64) -> (r: Option<u64>)
    requires
        radix == 10 || radix == 16,
    ensures
        r matches Some(d) ==> digit_value(c, radix as int) == Some(d as int),
        r is None ==> digit_value(c, radix as int) is None,
{
    let d: u64 = if 48 <= c && c <= 57 {
        (c - 48) as u64
    } else if 97 <= c && c <= 122 {
        (c - 97 + 10) as u64
    } else if 65 <= c && c <= 90 {
        (c - 65 + 10) as u64
    } else {
        99
    };
    if d < radix {
        Some(d)
    } else {
        None
    }
}

/// Reads a number the way the shell does (see `number_of`).
pub fn parse_number(tok: &[u8]) -> (r: Option<usize>)
    ensures
        match number_of(tok@) {
            Some(v) => r == Some(v as usize),
            None => r.is_none(),
        },
{
    let n = tok.len();
    let hex = n >= 2 && tok[0] == 48 && tok[1] == 120;
    let start0: usize = if hex { 2 } else { 0 };
    let radix: u64 = if hex { 16 } else { 10 };
    let ghost body = if hex { tok@.subrange(2, n as int) } else { tok@ };
    let plus = start0 < n && tok[start0] == 43;
    let start: usize = if plus { start0 + 1 } else { start0 };
    let ghost digits = tok@.subrange(start as int, n as int);
    proof {
        if plus {
            assert(body.subrange(1, body.len() as int) =~= digits);
        } else {
            assert(body =~= digits);
        }
    }
    if start >= n {
        return None;
    }
    proof {
        assert(digits.len() > 0);
        assert(number_of(tok@) == (if !digits_ok(digits, radix as int) || digits_val(digits, radix as int) > usize::MAX {
            None::<int>
        } else {
            Some(digits_val(digits, radix as int))
        }));
        assert(tok@.subrange(start as int, start as int) =~= Seq::<u8>::empty());
    }
    let mut v: u64 = 0;
    let mut i: usize = start;
    while i < n
        invariant
            n == tok@.len(),
            start <= i <= n,
            radix == 10 || radix == 16,
            digits == tok@.subrange(start as int, n as int),
            number_of(tok@) == (if !digits_ok(digits, radix as int) || digits_val(digits, radix as int) > usize::MAX {
                None::<int>
            } else {
                Some(digits_val(digits, radix as int))
            }),
            digits_ok(tok@.subrange(start as int, i as int), radix as int),
            v == digits_val(tok@.subrange(start as int, i as int), radix as int),
            v <= usize::MAX,
        decreases n - i,
    {
        let ghost pre = tok@.subrange(start as int, i as int);
        let ghost next = tok@.subrange(start as int, i + 1);
        assert(next.drop_last() =~= pre);
        let d = match digit_exec(tok[i], radix) {
            None => {
                proof {
                    assert(digits[i - start] == tok@[i as int]);
                    assert(!(digit_value(digits[i - start], radix as int) is Some));
                }
                return None;
            },
            Some(d) => d,
        };
        proof {
            assert forall|k: int| 0 <= k < next.len() implies (#[trigger] digit_value(next[k], radix as int)) is Some by {
                if k < pre.len() {
                    assert(next[k] == pre[k]);
                    assert(digit_value(pre[k], radix as int) is Some);
                }
            }
        }
        let lim: u64 = ((usize::MAX as u64) - d) / radix;
        if v > lim {
            proof {
                assert(digits_val(next, radix as int) > usize::MAX) by (nonlinear_arith)
                    requires
                        v > lim,
                        lim == (usize::MAX - d) / (radix as int),
                        digits_val(next, radix as int) == v * radix + d,
                        radix >= 10,
                        d < radix,
                ;
                if digits_ok(digits, radix as int) {
                    assert(digits.subrange(0, i + 1 - start) =~= next);
                    lemma_digits_val_grows(digits, radix as int, i + 1 - start);
                }
            }
            return None;
        }
        v = v * radix + d;
        i = i + 1;
    }
    proof {
        assert(tok@.subrange(start as int, i as int) =~= digits);
    }
    Some(v as usize)
}


/// The lowercase hex digit of `n` (below 16).
pub open spec fn hex_digit(n: int) -> u8 {
    if n < 10 { (48 + n) as u8 } else { (87 + n) as u8 }
}

/// The lowest `n` hex digits of `x`, most significant first.
pub open spec fn hex_digits(x: nat, n: nat) -> Seq<u8>
    decreases n,
{
    if n == 0 {
        Seq::empty()
    } else {
        hex_digits(x / 16, (n - 1) as nat).push(hex_digit((x % 16) as int))
    }
}

/// Column `j` of the hex part of a dump line: the byte's two digits and a
/// space, or three spaces past the end of `bytes`.
pub open spec fn hex_cell(bytes: Seq<u8>, j: int) -> Seq<u8> {
    if j < bytes.len() {
        hex_digits(bytes[j] as nat, 2).push(32u8)
    } else {
        seq![32u8, 32u8, 32u8]
    }
}

/// The first `k` columns of the hex part of a dump line.
pub open spec fn hex_cells(bytes: Seq<u8>, k: nat) -> Seq<u8>
    decreases k,
{
    if k == 0 {
        Seq::empty()
    } else {
        hex_cells(bytes, (k - 1) as nat) + hex_cell(bytes, k - 1)
    }
}

/// How a byte shows in the text part of a dump line: printable ASCII as
/// itself, anything else as a dot.
pub open spec fn shown_char(b: u8) -> u8 {
    if 32 <= b && b <= 126 { b } else { 46u8 }
}

/// The text part of a dump line, padded with spaces to 16 columns.
pub open spec fn text_cells(bytes: Seq<u8>) -> Seq<u8> {
    Seq::new(16, |j: int| if j < bytes.len() { shown_char(bytes[j]) } else { 32u8 })
}

/// One line of the `inspect` dump: the address in 16 hex digits, a colon and
/// two spaces, 16 hex columns, then the bytes as text between bars.
pub open spec fn dump_line(addr: u64, bytes: Seq<u8>) -> Seq<u8> {
    hex_digits(addr as nat, 16) + seq![58u8, 32u8, 32u8] + hex_cells(bytes, 16)
        + seq![32u8, 124u8] + text_cells(bytes) + seq![124u8, 10u8]
}

fn hex_char(d: u64) -> (r: u8)
    requires
        d < 16,
    ensures
        r == hex_digit(d as int),
{
    if d < 10 { (48 + d) as u8 } else { (87 + d) as u8 }
}

fn push_hex(out: &mut Vec<u8>, x: u64, n: usize)
    ensures
        final(out)@ == old(out)@ + hex_digits(x as nat, n as nat),
    decreases n,
{
    if n == 0 {
        assert(old(out)@ + Seq::<u8>::empty() =~= old(out)@);
        return;
    }
    push_hex(out, x / 16, n - 1);
    out.push(hex_char(x % 16));
    proof {
        assert(hex_digits(x as nat, n as nat) == hex_digits((x / 16) as nat, (n - 1) as nat).push(hex_digit((x % 16) as int)));
        assert(old(out)@ + hex_digits((x / 16) as nat, (n - 1) as nat) + seq![hex_digit((x % 16) as int)]
            =~= old(out)@ + hex_digits(x as nat, n as nat));
    }
}

/// Formats one line of the `inspect` dump (see `dump_line`) for up to 16 bytes
/// read at `addr`.
pub fn inspect_line(addr: u64, bytes: &[u8]) -> (r: Vec<u8>)
    requires
        bytes@.len() <= 16,
    ensures
        r@ == dump_line(addr, bytes@),
{
    let mut out: Vec<u8> = Vec::new();
    push_hex(&mut out, addr, 16);
    out.push(58);
    out.push(32);
    out.push(32);
    let ghost head = out@;
    assert(head =~= hex_digits(addr as nat, 16) + seq![58u8, 32u8, 32u8]);
    let mut j: usize = 0;
    assert(head + hex_cells(bytes@, 0) =~= head);
    while j < 16
        invariant
            j <= 16,
            bytes@.len() <= 16,
            out@ == head + hex_cells(bytes@, j as nat),
        decreases 16 - j,
    {
        let ghost before = out@;
        if j < bytes.len() {
            push_hex(&mut out, bytes[j] as u64, 2);
            out.push(32);
        } else {
            out.push(32);
            out.push(32);
            out.push(32);
        }
        proof {
            assert(hex_cells(bytes@, (j + 1) as nat) == hex_cells(bytes@, j as nat) + hex_cell(bytes@, j as int));
            assert(out@ =~= before + hex_cell(bytes@, j as int));
            assert(out@ =~= head + hex_cells(bytes@, (j + 1) as nat));
        }
        j = j + 1;
    }
    out.push(32);
    out.push(124);
    let ghost mid = out@;
    let mut k: usize = 0;
    while k < 16
        invariant
            k <= 16,
            bytes@.len() <= 16,
            out@.len() == mid.len() + k,
            out@.subrange(0, mid.len() as int) == mid,
            forall|i: int| 0 <= i < k ==> out@[mid.len() + i] == text_cells(bytes@)[i],
        decreases 16 - k,
    {
        let c: u8 = if k < bytes.len() {
            let b = bytes[k];
            if 32 <= b && b <= 126 { b } else { 46 }
        } else {
            32
        };
        out.push(c);
        proof {
            assert(out@.subrange(0, mid.len() as int) =~= mid);
        }
        k = k + 1;
    }
    proof {
        assert(out@ =~= mid + text_cells(bytes@));
    }
    out.push(124);
    out.push(10);
    proof {
        assert(out@ =~= dump_line(addr, bytes@));
    }
    out
}

/// What the `debug` command can print at an address.
#[derive(Clone, Copy, PartialEq, Eq, Structural, Debug)]
pub enum DebugKind {
    Tcb,
    PageTable,
    CNode,
    Capability,
    Unknown,
}

/// The kind a `debug` type word names.
pub open spec fn debug_kind_of(word: Seq<u8>) -> DebugKind {
    if word == seq![116u8, 99, 98] { DebugKind::Tcb }
    else if word == seq![112u8, 97, 103, 101, 116, 97, 98, 108, 101] { DebugKind::PageTable }
    else if word == seq![99u8, 110, 111, 100, 101] { DebugKind::CNode }
    else if word == seq![99u8, 97, 112, 97, 98, 105, 108, 105, 116, 121] { DebugKind::Capability }
    else { DebugKind::Unknown }
}

/// Reads the type word of the `debug` command.
pub fn debug_kind(word: &[u8]) -> (r: DebugKind)
    ensures
        r == debug_kind_of(word@),
{
    let tcb: [u8; 3] = [116, 99, 98];
    let pt: [u8; 9] = [112, 97, 103, 101, 116, 97, 98, 108, 101];
    let cnode: [u8; 5] = [99, 110, 111, 100, 101];
    let cap: [u8; 10] = [99, 97, 112, 97, 98, 105, 108, 105, 116, 121];
    proof {
        assert(tcb@ =~= seq![116u8, 99, 98]);
        assert(pt@ =~= seq![112u8, 97, 103, 101, 116, 97, 98, 108, 101]);
        assert(cnode@ =~= seq![99u8, 110, 111, 100, 101]);
        assert(cap@ =~= seq![99u8, 97, 112, 97, 98, 105, 108, 105, 116, 121]);
    }
    if bytes_eq(word, tcb.as_slice()) {
        DebugKind::Tcb
    } else if bytes_eq(word, pt.as_slice()) {
        DebugKind::PageTable
    } else if bytes_eq(word, cnode.as_slice()) {
        DebugKind::CNode
    } else if bytes_eq(word, cap.as_slice()) {
        DebugKind::Capability
    } else {
        DebugKind::Unknown
    }
}

} // verus!
