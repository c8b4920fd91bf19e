//! Finding Kagami and the size of the screen.
use vstd::prelude::*;
#[allow(unused_imports)]
use vstd::string::is_ascii_spec_bytes;
#[allow(unused_imports)]
use vstd::utf8::is_ascii_chars;

verus! {

pub open spec fn is_digit(c: char) -> bool {
    '0' <= c && c <= '9'
}

/// The number that a sequence of decimal digits stands for.
pub open spec fn decimal_value(digits: Seq<char>) -> int
    decreases digits.len(),
{
    if digits.len() == 0 {
        0
    } else {
        10 * decimal_value(digits.drop_last()) + (digits.last() as int - '0' as int)
    }
}

/// The part of a number's text behind its optional plus sign.
pub open spec fn digits_of(text: Seq<char>) -> Seq<char> {
    if text.len() > 0 && text[0] == '+' {
        text.skip(1)
    } else {
        text
    }
}

/// The number that a text stands for: decimal digits, at least one, after an
/// optional plus sign. A text with anything else in it, or of a number beyond 64
/// bits, stands for none.
pub open spec fn parsed_u64(text: Seq<char>) -> Option<u64> {
    let digits = digits_of(text);
    if digits.len() > 0 && (forall|k: int| 0 <= k < digits.len() ==> is_digit(#[trigger] digits[k]))
        && decimal_value(digits) <= u64::MAX {
        Some(decimal_value(digits) as u64)
    } else {
        None
    }
}

/// The name of the option that gives Kagami's thread, with its equals sign.
pub open spec fn tid_option() -> Seq<char> {
    "--kagami-tid="@
}

/// The thread that a program argument gives: a number other than zero behind the
/// option's name.
pub open spec fn tid_of(arg: Seq<char>) -> Option<u64> {
    if tid_option().is_prefix_of(arg) {
        match parsed_u64(arg.skip(tid_option().len() as int)) {
            Some(tid) => if tid != 0 {
                Some(tid)
            } else {
                None
            },
            None => None,
        }
    } else {
        None
    }
}

/// The characters of an ASCII text.
spec fn ascii_text(bytes: Seq<u8>) -> Seq<char> {
    Seq::new(bytes.len(), |k: int| bytes[k] as char)
}

proof fn lemma_decimal_grows(digits: Seq<char>, k: int)
    requires
        0 <= k <= digits.len(),
        forall|n: int| 0 <= n < digits.len() ==> is_digit(#[trigger] digits[n]),
    ensures
        0 <= decimal_value(digits.take(k)) <= decimal_value(digits),
    decreases digits.len(),
{
    if k == digits.len() {
        assert(digits.take(k) =~= digits);
        if k > 0 {
            assert(is_digit(digits[k - 1]));
            lemma_decimal_grows(digits.drop_last(), k - 1);
        }
    } else {
        assert(is_digit(digits[digits.len() - 1]));
        assert(digits.drop_last().take(k) =~= digits.take(k));
        lemma_decimal_grows(digits.drop_last(), k);
    }
}

/// A text that gives a thread is plain ASCII.
proof fn lemma_tid_is_ascii(arg: Seq<char>)
    requires
        tid_of(arg) is Some,
    ensures
        is_ascii_chars(arg),
{
    reveal_strlit("--kagami-tid=");
    let rest = arg.skip(13);
    let digits = digits_of(rest);
    assert forall|k: int| 0 <= k < arg.len() implies '\0' <= #[trigger] arg[k] <= '\u{7f}' by {
        if k < 13 {
            assert(arg[k] == tid_option()[k]);
        } else {
            assert(arg[k] == rest[k - 13]);
            if digits.len() == rest.len() {
                assert(is_digit(digits[k - 13]));
            } else if k > 13 {
                assert(is_digit(digits[k - 14]));
            }
        }
    }
}

/// Parses the number whose ASCII text is `bytes` from position `at` on.
fn parse_u64(bytes: &[u8], at: usize) -> (parsed: Option<u64>)
    requires
        at <= bytes@.len(),
        forall|k: int| 0 <= k < bytes@.len() ==> #[trigger] bytes@[k] < 0x80,
    ensures
        parsed == parsed_u64(ascii_text(bytes@).skip(at as int)),
{
    let ghost text = ascii_text(bytes@).skip(at as int);
    let ghost digits = digits_of(text);
    let mut from: usize = at;
    if at < bytes.len() && bytes[at] == 0x2B {
        from = at + 1;
    }
    proof {
        if at < bytes@.len() {
            assert(text[0] == bytes@[at as int] as char);
        }
        assert(digits =~= ascii_text(bytes@).skip(from as int));
        assert(forall|k: int| 0 <= k < digits.len() ==> #[trigger] digits[k] == bytes@[from + k] as char);
    }
    if from == bytes.len() {
        return None;
    }
    let mut n: usize = from;
    while n < bytes.len()
        invariant
            from <= n <= bytes@.len(),
            text == ascii_text(bytes@).skip(at as int),
            digits == digits_of(text),
            digits.len() == bytes@.len() - from,
            forall|k: int| 0 <= k < bytes@.len() ==> #[trigger] bytes@[k] < 0x80,
            forall|k: int| 0 <= k < digits.len() ==> #[trigger] digits[k] == bytes@[from + k] as char,
            forall|k: int| 0 <= k < n - from ==> is_digit(#[trigger] digits[k]),
        decreases bytes@.len() - n,
    {
        if bytes[n] < 0x30 || bytes[n] > 0x39 {
            proof {
                assert(digits[n - from] == bytes@[n as int] as char);
                assert(!is_digit(digits[n - from]));
            }
            return None;
        }
        assert(digits[n - from] == bytes@[n as int] as char);
        n = n + 1;
    }
    let mut value: u64 = 0;
    let mut n: usize = from;
    assert(digits.take(0) =~= seq![]);
    while n < bytes.len()
        invariant
            from <= n <= bytes@.len(),
            text == ascii_text(bytes@).skip(at as int),
            digits == digits_of(text),
            digits.len() == bytes@.len() - from,
            forall|k: int| 0 <= k < bytes@.len() ==> #[trigger] bytes@[k] < 0x80,
            forall|k: int| 0 <= k < digits.len() ==> #[trigger] digits[k] == bytes@[from + k] as char,
            forall|k: int| 0 <= k < digits.len() ==> is_digit(#[trigger] digits[k]),
            value == decimal_value(digits.take(n - from)),
        decreases bytes@.len() - n,
    {
        proof {
            let k = n - from;
            assert(is_digit(digits[k]));
            assert(digits[k] == bytes@[n as int] as char);
            assert(digits.take(k + 1).drop_last() =~= digits.take(k));
            lemma_decimal_grows(digits, k + 1);
        }
        let digit: u64 = (bytes[n] - 0x30) as u64;
        let tens: u64 = match value.checked_mul(10) {
            Some(tens) => tens,
            None => {
                return None;
            },
        };
        value = match tens.checked_add(digit) {
            Some(sum) => sum,
            None => {
                return None;
            },
        };
        n = n + 1;
    }
    assert(digits.take(n - from) =~= digits);
    Some(value)
}

/// The thread that a program argument gives.
pub fn tid_of_arg(arg: &str) -> (tid: Option<u64>)
    ensures
        tid == tid_of(arg@),
{
    if !arg.is_ascii() {
        proof {
            if tid_of(arg@) is Some {
                lemma_tid_is_ascii(arg@);
            }
        }
        return None;
    }
    let option: &[u8] = "--kagami-tid=".as_bytes();
    let bytes: &[u8] = arg.as_bytes();
    proof {
        reveal_strlit("--kagami-tid=");
        is_ascii_spec_bytes(arg);
        is_ascii_spec_bytes("--kagami-tid=");
        assert(forall|m: int| 0 <= m < bytes@.len() ==> #[trigger] bytes@[m] as int == arg@[m] as int);
        assert(ascii_text(bytes@) =~= arg@);
    }
    if bytes.len() < option.len() {
        return None;
    }
    let mut k: usize = 0;
    while k < option.len()
        invariant
            k <= option@.len() <= bytes@.len(),
            option@.len() == tid_option().len(),
            bytes@.len() == arg@.len(),
            forall|m: int|
                0 <= m < option@.len() ==> #[trigger] option@[m] as int == tid_option()[m] as int,
            forall|m: int| 0 <= m < bytes@.len() ==> #[trigger] bytes@[m] as int == arg@[m] as int,
            forall|m: int| 0 <= m < k ==> #[trigger] tid_option()[m] == arg@[m],
        decreases option@.len() - k,
    {
        assert(option@[k as int] as int == tid_option()[k as int] as int);
        assert(bytes@[k as int] as int == arg@[k as int] as int);
        if bytes[k] != option[k] {
            assert(tid_option()[k as int] != arg@[k as int]);
            return None;
        }
        assert(tid_option()[k as int] == arg@[k as int]);
        k = k + 1;
    }
    match parse_u64(bytes, option.len()) {
        Some(tid) => if tid != 0 {
            Some(tid)
        } else {
            None
        },
        None => None,
    }
}

/// A text of one character stands for a number if it is a digit.
pub proof fn lemma_number_of_one_digit(c: char)
    ensures
        parsed_u64(seq![]) is None,
        '0' <= c <= '9' ==> parsed_u64(seq![c]) == Some((c as int - 48) as u64),
        !('0' <= c <= '9') ==> parsed_u64(seq![c]) is None,
{
    reveal_with_fuel(decimal_value, 2);
    let text = seq![c];
    assert(text.drop_last() =~= seq![]);
    if c == '+' {
        assert(text.skip(1) =~= seq![]);
    } else if !('0' <= c <= '9') {
        assert(!is_digit(digits_of(text)[0]));
    }
}

/// A further digit makes a number ten times as large and adds to it, as long as it
/// fits in 64 bits; any other character makes it no number.
pub proof fn lemma_number_with_further_digit(text: Seq<char>, value: u64, c: char)
    requires
        parsed_u64(text) == Some(value),
    ensures
        '0' <= c <= '9' && 10 * value + (c as int - 48) <= 0xFFFF_FFFF_FFFF_FFFF ==> parsed_u64(
            text.push(c),
        ) == Some((10 * value + (c as int - 48)) as u64),
        '0' <= c <= '9' && 10 * value + (c as int - 48) > 0xFFFF_FFFF_FFFF_FFFF ==> parsed_u64(
            text.push(c),
        ) is None,
        !('0' <= c <= '9') ==> parsed_u64(text.push(c)) is None,
{
    let digits = digits_of(text);
    let longer = digits_of(text.push(c));
    assert(longer =~= digits.push(c));
    assert(longer.drop_last() =~= digits);
    assert(digits.take(digits.len() as int) =~= digits);
    lemma_decimal_grows(digits, digits.len() as int);
    if is_digit(c) {
        assert forall|k: int| 0 <= k < longer.len() implies is_digit(#[trigger] longer[k]) by {
            if k < digits.len() {
                assert(is_digit(digits[k]));
            }
        }
    } else {
        assert(!is_digit(longer[digits.len() as int]));
    }
}

/// A text that is no number does not become one by a further character, unless it
/// is empty or a plus sign alone.
pub proof fn lemma_no_number_stays_none(text: Seq<char>, c: char)
    requires
        parsed_u64(text) is None,
        text.len() > 0,
        text != seq!['+'],
    ensures
        parsed_u64(text.push(c)) is None,
{
    let digits = digits_of(text);
    let longer = digits_of(text.push(c));
    assert(longer =~= digits.push(c));
    assert(longer.drop_last() =~= digits);
    if digits.len() == 0 {
        assert(text =~= seq!['+']);
    }
    if forall|k: int| 0 <= k < longer.len() ==> is_digit(#[trigger] longer[k]) {
        assert forall|k: int| 0 <= k < digits.len() implies is_digit(#[trigger] digits[k]) by {
            assert(is_digit(longer[k]));
        }
        assert(is_digit(longer[longer.len() - 1]));
        assert(decimal_value(longer) >= 10 * decimal_value(digits));
    }
}

/// One plus sign may stand before a number and changes nothing; a second may not.
pub proof fn lemma_number_with_plus(text: Seq<char>)
    ensures
        text.len() == 0 || text[0] != '+' ==> parsed_u64(seq!['+'] + text) == parsed_u64(text),
        text.len() > 0 && text[0] == '+' ==> parsed_u64(seq!['+'] + text) is None,
{
    assert(digits_of(seq!['+'] + text) =~= text);
    if text.len() > 0 && text[0] == '+' {
        assert(!is_digit(text[0]));
    }
}

/// A number in decimal, without leading zeros.
pub open spec fn decimal_text(n: nat) -> Seq<char>
    decreases n,
{
    if n < 10 {
        seq![(n + 48) as char]
    } else {
        decimal_text(n / 10).push((n % 10 + 48) as char)
    }
}

/// Every 64-bit number is read back from its decimal text, and no larger number is
/// read at all.
pub proof fn lemma_number_is_read_back(n: nat)
    ensures
        decimal_text(n).len() > 0,
        decimal_text(n)[0] != '+',
        n <= 0xFFFF_FFFF_FFFF_FFFF ==> parsed_u64(decimal_text(n)) == Some(n as u64),
        n > 0xFFFF_FFFF_FFFF_FFFF ==> parsed_u64(decimal_text(n)) is None,
    decreases n,
{
    if n < 10 {
        lemma_number_of_one_digit((n + 48) as char);
    } else {
        let c = (n % 10 + 48) as char;
        lemma_number_is_read_back(n / 10);
        if n / 10 <= 0xFFFF_FFFF_FFFF_FFFF {
            lemma_number_with_further_digit(decimal_text(n / 10), (n / 10) as u64, c);
        } else {
            lemma_no_number_stays_none(decimal_text(n / 10), c);
        }
    }
}

/// An argument gives a thread only if it starts with the option's name, and it then
/// gives the number behind it, unless that is zero.
pub proof fn lemma_tid_of_arg(arg: Seq<char>)
    ensures
        ({
            let name = seq!['-', '-', 'k', 'a', 'g', 'a', 'm', 'i', '-', 't', 'i', 'd', '='];
            &&& arg.len() < 13 || arg.take(13) != name ==> tid_of(arg) is None
            &&& arg.len() >= 13 && arg.take(13) == name ==> {
                &&& parsed_u64(arg.skip(13)) is None ==> tid_of(arg) is None
                &&& parsed_u64(arg.skip(13)) == Some(0u64) ==> tid_of(arg) is None
                &&& parsed_u64(arg.skip(13)) != Some(0u64) ==> tid_of(arg) == parsed_u64(
                    arg.skip(13),
                )
            }
        }),
{
    reveal_strlit("--kagami-tid=");
    let name = seq!['-', '-', 'k', 'a', 'g', 'a', 'm', 'i', '-', 't', 'i', 'd', '='];
    assert(tid_option() =~= name);
    if arg.len() >= 13 && name.is_prefix_of(arg) {
        assert(arg.take(13) =~= name);
    }
    if arg.len() >= 13 && arg.take(13) == name {
        assert forall|k: int| 0 <= k < 13 implies name[k] == arg[k] by {
            assert(arg.take(13)[k] == arg[k]);
        }
        assert(name.is_prefix_of(arg));
    }
}

/// What the first of the arguments from number `from` on that gives a thread
/// gives; `None` when none of them does.
pub open spec fn first_tid(args: Seq<String>, from: int) -> Option<u64>
    decreases args.len() - from,
{
    if from >= args.len() {
        None
    } else if tid_of(args[from]@) is Some {
        tid_of(args[from]@)
    } else {
        first_tid(args, from + 1)
    }
}

/// The first argument that gives a thread decides, whatever stands behind it.
pub proof fn lemma_first_tid_decides(args: Seq<String>, from: int, at: int)
    requires
        from <= at < args.len(),
        tid_of(args[at]@) is Some,
        forall|k: int| from <= k < at ==> #[trigger] tid_of(args[k]@) is None,
    ensures
        first_tid(args, from) == tid_of(args[at]@),
    decreases at - from,
{
    if from < at {
        assert(tid_of(args[from]@) is None);
        lemma_first_tid_decides(args, from + 1, at);
    }
}

/// Arguments of which none gives a thread give none together.
pub proof fn lemma_no_tid(args: Seq<String>, from: int)
    requires
        forall|k: int| from <= k < args.len() ==> #[trigger] tid_of(args[k]@) is None,
    ensures
        first_tid(args, from) is None,
    decreases args.len() - from,
{
    if from < args.len() {
        assert(tid_of(args[from]@) is None);
        lemma_no_tid(args, from + 1);
    }
}

/// Arguments never give the thread number zero.
pub proof fn lemma_tid_is_not_zero(args: Seq<String>, from: int)
    ensures
        first_tid(args, from) != Some(0u64),
    decreases args.len() - from,
{
    if from < args.len() {
        lemma_tid_is_not_zero(args, from + 1);
    }
}

/// The program's name, which is the first argument, gives no thread.
pub proof fn lemma_program_name_is_ignored(args: Seq<String>, others: Seq<String>, from: int)
    requires
        1 <= from,
        args.len() == others.len(),
        forall|k: int| 1 <= k < args.len() ==> #[trigger] args[k] == others[k],
    ensures
        first_tid(args, from) == first_tid(others, from),
    decreases args.len() - from,
{
    if from < args.len() {
        assert(args[from] == others[from]);
        lemma_program_name_is_ignored(args, others, from + 1);
    }
}

/// A thread that an argument names in decimal is the thread that the arguments give,
/// if no argument before it starts with the option's name.
pub proof fn lemma_named_thread_is_given(args: Seq<String>, at: int, tid: u64)
    requires
        1 <= at < args.len(),
        tid > 0,
        args[at]@ == seq!['-', '-', 'k', 'a', 'g', 'a', 'm', 'i', '-', 't', 'i', 'd', '=']
            + decimal_text(tid as nat),
        forall|k: int|
            1 <= k < at ==> (#[trigger] args[k])@.len() < 13 || args[k]@.take(13) != seq![
                '-', '-', 'k', 'a', 'g', 'a', 'm', 'i', '-', 't', 'i', 'd', '=',
            ],
    ensures
        first_tid(args, 1) == Some(tid),
{
    let name = seq!['-', '-', 'k', 'a', 'g', 'a', 'm', 'i', '-', 't', 'i', 'd', '='];
    assert(args[at]@.take(13) =~= name);
    assert(args[at]@.skip(13) =~= decimal_text(tid as nat));
    lemma_number_is_read_back(tid as nat);
    lemma_tid_of_arg(args[at]@);
    assert forall|k: int| 1 <= k < at implies #[trigger] tid_of(args[k]@) is None by {
        lemma_tid_of_arg(args[k]@);
    }
    lemma_first_tid_decides(args, 1, at);
}

/// The thread of Kagami that the program arguments give, the program's name being
/// the first of them.
pub fn parse_kagami_tid_from_args(args: &[String]) -> (tid: Option<u64>)
    ensures
        tid == first_tid(args@, 1),
{
    let mut k: usize = 1;
    while k < args.len()
        invariant
            1 <= k,
            first_tid(args@, 1) == first_tid(args@, k as int),
        decreases args@.len() - k,
    {
        let tid: Option<u64> = tid_of_arg(args[k].as_str());
        if tid.is_some() {
            return tid;
        }
        k = k + 1;
    }
    None
}

/// The names under which Kagami may run, in the order in which they are tried.
pub open spec fn candidates() -> Seq<Seq<char>> {
    seq!["/Applications/Kagami.app/entry.elf"@, "Kagami.app"@, "entry.elf"@]
}

/// The candidate number `index` is being looked for.
#[derive(Clone, Copy, Debug, PartialEq, Eq)]
pub struct Search {
    pub index: usize,
}

/// What to do next.
#[derive(Clone, Copy, Debug, PartialEq, Eq)]
pub enum SearchStep {
    /// Look for a process called `name`, and report its thread to `then`.
    Find { name: &'static str, then: Search },
    /// The search has ended.
    Done(Option<u64>),
}

/// The step is to look for candidate number `index` if there is one, and else to
/// end without a thread.
pub open spec fn seeks(step: SearchStep, index: int) -> bool {
    if 0 <= index < candidates().len() {
        (step matches SearchStep::Find { name, then } && name@ == candidates()[index] && then.index
            == index)
    } else {
        step == SearchStep::Done(None)
    }
}

fn seek(index: usize) -> (step: SearchStep)
    ensures
        seeks(step, index as int),
{
    let name: &'static str = if index == 0 {
        "/Applications/Kagami.app/entry.elf"
    } else if index == 1 {
        "Kagami.app"
    } else if index == 2 {
        "entry.elf"
    } else {
        return SearchStep::Done(None);
    };
    SearchStep::Find { name, then: Search { index } }
}

/// Starts to look for Kagami among the running processes.
pub fn find_kagami_tid() -> (step: SearchStep)
    ensures
        seeks(step, 0),
{
    seek(0)
}

impl Search {
    /// Goes on after the candidate has been looked for: the thread that was found
    /// ends the search, and else the next candidate follows.
    pub fn on_result(self, tid: Option<u64>) -> (step: SearchStep)
        requires
            self.index < candidates().len(),
        ensures
            tid is Some ==> step == SearchStep::Done(tid),
            tid is None ==> seeks(step, self.index + 1),
    {
        match tid {
            Some(_) => SearchStep::Done(tid),
            None => seek(self.index + 1),
        }
    }
}

/// Starts to look for Kagami: the program arguments decide, and only if they give
/// no thread are the running processes searched.
pub fn locate_kagami(args: &[String]) -> (step: SearchStep)
    ensures
        first_tid(args@, 1) is Some ==> step == SearchStep::Done(first_tid(args@, 1)),
        first_tid(args@, 1) is None ==> seeks(step, 0),
{
    let tid: Option<u64> = parse_kagami_tid_from_args(args);
    match tid {
        Some(_) => SearchStep::Done(tid),
        None => find_kagami_tid(),
    }
}

/// Kagami is looked for under three names, one after the other.
pub proof fn lemma_three_names_are_tried(step: SearchStep)
    ensures
        candidates().len() == 3,
        seeks(step, 0) ==> (step matches SearchStep::Find { name, then } && name@
            == "/Applications/Kagami.app/entry.elf"@ && then.index == 0),
        seeks(step, 1) ==> (step matches SearchStep::Find { name, then } && name@ == "Kagami.app"@
            && then.index == 1),
        seeks(step, 2) ==> (step matches SearchStep::Find { name, then } && name@ == "entry.elf"@
            && then.index == 2),
        seeks(step, 3) ==> step == SearchStep::Done(None),
{
}

/// How a search ends from candidate number `index` on, when looking for candidate
/// number `k` gives `found[k]`.
pub open spec fn search_outcome(index: int, found: Seq<Option<u64>>) -> Option<u64>
    decreases found.len() - index,
{
    if 0 <= index < candidates().len() && index < found.len() {
        if found[index] is Some {
            found[index]
        } else {
            search_outcome(index + 1, found)
        }
    } else {
        None
    }
}

/// The search gives the thread of the first candidate that runs.
pub proof fn lemma_first_candidate_wins(found: Seq<Option<u64>>, at: int)
    requires
        found.len() == candidates().len(),
        0 <= at < found.len(),
        found[at] is Some,
        forall|k: int| 0 <= k < at ==> #[trigger] found[k] is None,
    ensures
        search_outcome(0, found) == found[at],
{
    reveal_with_fuel(search_outcome, 4);
}

/// The search gives no thread when no candidate runs.
pub proof fn lemma_no_candidate_runs(found: Seq<Option<u64>>)
    requires
        found.len() == candidates().len(),
        forall|k: int| 0 <= k < found.len() ==> #[trigger] found[k] is None,
    ensures
        search_outcome(0, found) is None,
{
    reveal_with_fuel(search_outcome, 4);
}

/// The size of a screen in pixels.
#[derive(Clone, Copy, Debug, PartialEq, Eq)]
pub struct ScreenInfo {
    pub width: u32,
    pub height: u32,
}

/// The nearest length that a window can have.
pub open spec fn window_length(pixels: u32) -> u16 {
    if pixels < 1 {
        1
    } else if pixels > u16::MAX {
        u16::MAX
    } else {
        pixels as u16
    }
}

/// A window is as long as the screen, but at least one pixel and at most 65535.
pub proof fn lemma_window_length(pixels: u32)
    ensures
        1 <= pixels <= 65535 ==> window_length(pixels) == pixels,
        pixels == 0 ==> window_length(pixels) == 1,
        pixels > 65535 ==> window_length(pixels) == 65535,
{
}

fn to_window_length(pixels: u32) -> (len: u16)
    ensures
        len == window_length(pixels),
{
    pixels.max(1).min(u16::MAX as u32) as u16
}

/// The size of the desktop window: that of the screen as far as a window can have
/// it, and 1280 by 800 when the screen is not known.
pub fn desktop_window_size(info: Option<ScreenInfo>) -> (size: (u16, u16))
    ensures
        size == (match info {
            Some(info) => (window_length(info.width), window_length(info.height)),
            None => (1280u16, 800u16),
        }),
        info is None ==> size.0 == 1280 && size.1 == 800,
        (info matches Some(screen) ==> {
            &&& 1 <= screen.width <= 65535 ==> size.0 == screen.width
            &&& 1 <= screen.height <= 65535 ==> size.1 == screen.height
            &&& screen.width == 0 ==> size.0 == 1
            &&& screen.height == 0 ==> size.1 == 1
            &&& screen.width > 65535 ==> size.0 == 65535
            &&& screen.height > 65535 ==> size.1 == 65535
        }),
{
    if let Some(info) = info {
        return (to_window_length(info.width), to_window_length(info.height));
    }
    (1280, 800)
}

} // verus!
