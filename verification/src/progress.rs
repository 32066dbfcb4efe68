//! A status line that is redrawn in place, and what it shows of downloads.

use crate::text::{chars_of, concat};
use vstd::prelude::*;
use vstd::string::*;

verus! {

/// The environment variable that turns status lines off.
pub const NO_PROGRESS_ENV_VAR: &'static str = "ANA_NO_PROGRESS";

/// The width of a terminal whose width is not known, in columns.
pub const FALLBACK_WIDTH: usize = 80;

/// The least time between two redraws, in nanoseconds.
pub const MIN_REDRAW_INTERVAL: u64 = 33_000_000;

/// The width of a progress bar, in characters.
pub const BAR_WIDTH: usize = 20;

/// What returns to the start of the line and erases it.
pub const ERASE_LINE: &'static str = "\r\x1B[K";

/// The control characters.
pub open spec fn is_control(c: char) -> bool {
    c <= '\u{1f}' || '\u{7f}' <= c <= '\u{9f}'
}

/// `s` without its control characters.
pub open spec fn printable(s: Seq<char>) -> Seq<char>
    decreases s.len(),
{
    if s.len() == 0 {
        Seq::empty()
    } else if is_control(s.last()) {
        printable(s.drop_last())
    } else {
        printable(s.drop_last()).push(s.last())
    }
}

/// A text without its control characters.
pub fn sanitize(text: &str) -> (r: String)
    ensures
        r@ == printable(text@),
{
    let cs = chars_of(text);
    let mut out = String::new();
    let mut i: usize = 0;
    assert(out@ =~= printable(cs@.take(0)));
    while i < cs.len()
        invariant
            i <= cs.len(),
            out@ == printable(cs@.take(i as int)),
        decreases cs.len() - i,
    {
        assert(cs@.take(i + 1).drop_last() =~= cs@.take(i as int));
        assert(cs@.take(i + 1).last() == cs@[i as int]);
        let c = cs[i];
        if !(c <= '\u{1f}' || ('\u{7f}' <= c && c <= '\u{9f}')) {
            out.push(c);
        }
        i += 1;
    }
    assert(cs@.take(i as int) =~= cs@);
    out
}

/// Whether enough time has passed since the last redraw. The first is always
/// made.
pub open spec fn redraw_is_due(last: Option<u64>, now: u64) -> bool {
    match last {
        None => true,
        Some(previous) => now - previous >= MIN_REDRAW_INTERVAL,
    }
}

/// Whether enough time has passed since the last redraw.
pub fn should_redraw(last: Option<u64>, now: u64) -> (r: bool)
    ensures
        r == redraw_is_due(last, now),
{
    match last {
        None => true,
        Some(previous) => now.saturating_sub(previous) >= MIN_REDRAW_INTERVAL,
    }
}

/// Whether the value of the environment variable turns status lines off:
/// any value does but the empty one.
pub fn no_progress_disabled(value: Option<&str>) -> (r: bool)
    ensures
        r == (value is Some && value->0@.len() > 0),
{
    match value {
        Some(text) => !text.is_empty(),
        None => false,
    }
}

/// The columns to use of a terminal: all but one, and at least one.
pub open spec fn usable_width(detected: Option<usize>) -> int {
    let width = match detected {
        Some(w) => w,
        None => FALLBACK_WIDTH,
    };
    if width <= 2 {
        1
    } else {
        width - 1
    }
}

/// The columns to use of a terminal.
pub fn clamp_width(detected: Option<usize>) -> (r: usize)
    ensures
        r == usable_width(detected),
{
    let width: usize = match detected {
        Some(w) => w,
        None => FALLBACK_WIDTH,
    };
    if width <= 2 {
        1
    } else {
        width - 1
    }
}

/// `s` cut to so many characters; where something is cut off, the last is an
/// ellipsis.
pub open spec fn shortened(s: Seq<char>, max_width: nat) -> Seq<char> {
    if s.len() <= max_width {
        s
    } else if max_width == 0 {
        Seq::empty()
    } else {
        s.take(max_width - 1).push('\u{2026}')
    }
}

/// A text cut to so many characters.
pub fn truncate(text: &str, max_width: usize) -> (r: String)
    ensures
        r@ == shortened(text@, max_width as nat),
{
    let cs = chars_of(text);
    if cs.len() <= max_width {
        return text.to_owned();
    }
    let mut out = String::new();
    if max_width == 0 {
        assert(out@ =~= Seq::empty());
        return out;
    }
    let mut i: usize = 0;
    while i < max_width - 1
        invariant
            i <= max_width - 1,
            max_width < cs@.len(),
            out@ =~= cs@.take(i as int),
        decreases max_width - i,
    {
        out.push(cs[i]);
        i += 1;
        assert(out@ =~= cs@.take(i as int));
    }
    out.push('\u{2026}');
    out
}

/// A bar of so many filled cells, and the rest of it empty.
pub open spec fn bar_text(filled: nat, width: nat) -> Seq<char> {
    Seq::new(
        width,
        |i: int|
            if i < filled {
                '\u{2588}'
            } else {
                '\u{2591}'
            },
    )
}

/// A bar of so many filled cells, and the rest of it empty.
pub fn bar_of(filled: usize, width: usize) -> (r: String)
    ensures
        r@ == bar_text(filled as nat, width as nat),
{
    let mut out = String::new();
    let mut i: usize = 0;
    let ghost whole = bar_text(filled as nat, width as nat);
    assert(out@ =~= whole.take(0));
    while i < width
        invariant
            i <= width,
            whole == bar_text(filled as nat, width as nat),
            out@ == whole.take(i as int),
        decreases width - i,
    {
        if i < filled {
            out.push('\u{2588}');
        } else {
            out.push('\u{2591}');
        }
        i += 1;
        assert(out@ =~= whole.take(i as int));
    }
    assert(whole.take(i as int) =~= whole);
    out
}

/// What a status line writes to show a text on a terminal of a width.
pub open spec fn drawn_text(text: Seq<char>, detected: Option<usize>) -> Seq<char> {
    ERASE_LINE@ + shortened(printable(text), usable_width(detected) as nat)
}

/// A status line: whether it shows anything, whether it does now, and when
/// it was last redrawn, in nanoseconds.
#[derive(Debug, Clone, Copy, PartialEq, Eq)]
pub struct StatusLine {
    enabled: bool,
    drawn: bool,
    last_drawn_at: Option<u64>,
}

impl StatusLine {
    /// Whether the line shows anything.
    pub closed spec fn is_enabled(&self) -> bool {
        self.enabled
    }

    /// Whether there is something on the line.
    pub closed spec fn is_drawn(&self) -> bool {
        self.drawn
    }

    /// When the line was last redrawn.
    pub closed spec fn last_drawn(&self) -> Option<u64> {
        self.last_drawn_at
    }

    /// A line that shows something where the output is a terminal and the
    /// environment variable does not turn it off.
    pub fn new(is_terminal: bool, no_progress: Option<&str>) -> (r: StatusLine)
        ensures
            r.is_enabled() == (is_terminal && !(no_progress is Some && no_progress->0@.len() > 0)),
            !r.is_drawn(),
            r.last_drawn() is None,
    {
        StatusLine {
            enabled: is_terminal && !no_progress_disabled(no_progress),
            drawn: false,
            last_drawn_at: None,
        }
    }

    /// Whether the line shows anything.
    pub fn enabled(&self) -> (r: bool)
        ensures
            r == self.is_enabled(),
    {
        self.enabled
    }

    /// Whether there is something on the line.
    pub fn drawn(&self) -> (r: bool)
        ensures
            r == self.is_drawn(),
    {
        self.drawn
    }

    /// Whether [`update`](Self::update) would redraw the line now.
    pub fn should_render(&self, now: u64) -> (r: bool)
        ensures
            r == (self.is_enabled() && redraw_is_due(self.last_drawn(), now)),
    {
        self.enabled && should_redraw(self.last_drawn_at, now)
    }

    /// Redraws the line unless it was redrawn just before: gives what to
    /// write, if anything.
    pub fn update(&mut self, text: &str, now: u64, detected: Option<usize>) -> (r: Option<String>)
        ensures
            final(self).is_enabled() == old(self).is_enabled(),
            if old(self).is_enabled() && redraw_is_due(old(self).last_drawn(), now) {
                &&& r is Some
                &&& r->0@ == drawn_text(text@, detected)
                &&& final(self).is_drawn()
                &&& final(self).last_drawn() == Some(now)
            } else {
                &&& r is None
                &&& *final(self) == *old(self)
            },
    {
        if !self.should_render(now) {
            return None;
        }
        self.last_drawn_at = Some(now);
        self.drawn = true;
        let clean = sanitize(text);
        let short = truncate(clean.as_str(), clamp_width(detected));
        Some(concat(ERASE_LINE, short.as_str()))
    }

    /// Erases the line if there is something on it: gives what to write, if
    /// anything.
    pub fn clear(&mut self) -> (r: Option<&'static str>)
        ensures
            final(self).is_enabled() == old(self).is_enabled(),
            final(self).last_drawn() == old(self).last_drawn(),
            if old(self).is_enabled() && old(self).is_drawn() {
                &&& r is Some
                &&& r->0@ == ERASE_LINE@
                &&& !final(self).is_drawn()
            } else {
                &&& r is None
                &&& *final(self) == *old(self)
            },
    {
        if !self.enabled || !self.drawn {
            return None;
        }
        self.drawn = false;
        Some(ERASE_LINE)
    }
}

/// A text without control characters has none.
proof fn printable_has_no_control(s: Seq<char>)
    ensures
        forall|i: int| 0 <= i < printable(s).len() ==> !is_control(#[trigger] printable(s)[i]),
    decreases s.len(),
{
    if s.len() > 0 {
        printable_has_no_control(s.drop_last());
        let before = printable(s.drop_last());
        assert forall|i: int| 0 <= i < printable(s).len() implies !is_control(
            #[trigger] printable(s)[i],
        ) by {
            if i < before.len() {
                assert(printable(s)[i] == before[i]);
            }
        }
    }
}

/// What is drawn fits the terminal, one column left free where there are
/// two, and holds no control character beyond those that erase the line.
pub proof fn drawn_text_fits(text: Seq<char>, detected: Option<usize>)
    ensures
        ({
            let shown = drawn_text(text, detected).skip(ERASE_LINE@.len() as int);
            &&& shown.len() <= usable_width(detected)
            &&& forall|i: int| 0 <= i < shown.len() ==> !is_control(#[trigger] shown[i])
        }),
{
    let clean = printable(text);
    let shown = drawn_text(text, detected).skip(ERASE_LINE@.len() as int);
    printable_has_no_control(text);
    assert(shown =~= shortened(clean, usable_width(detected) as nat));
    assert forall|i: int| 0 <= i < shown.len() implies !is_control(#[trigger] shown[i]) by {
        if clean.len() <= usable_width(detected) || i < usable_width(detected) - 1 {
            assert(shown[i] == clean[i]);
        }
    }
}

/// The sum of numbers.
pub open spec fn sum(bytes: Seq<usize>) -> int
    decreases bytes.len(),
{
    if bytes.len() == 0 {
        0
    } else {
        sum(bytes.drop_last()) + bytes.last()
    }
}

/// What is left of a number once whole multiples of the size of a `usize`
/// are taken off.
pub open spec fn wrapped(n: int) -> int {
    n % (usize::MAX as int + 1)
}

/// `bytes` with zeros behind it up to a length.
pub open spec fn padded(bytes: Seq<usize>, length: int) -> Seq<usize> {
    if bytes.len() >= length {
        bytes
    } else {
        bytes + Seq::new((length - bytes.len()) as nat, |i: int| 0usize)
    }
}

proof fn sum_update(bytes: Seq<usize>, index: int, value: usize)
    requires
        0 <= index < bytes.len(),
    ensures
        sum(bytes.update(index, value)) == sum(bytes) + value - bytes[index],
    decreases bytes.len(),
{
    let after = bytes.update(index, value);
    if index == bytes.len() - 1 {
        assert(after.drop_last() =~= bytes.drop_last());
    } else {
        assert(after.drop_last() =~= bytes.drop_last().update(index, value));
        sum_update(bytes.drop_last(), index, value);
    }
}

proof fn sum_padded(bytes: Seq<usize>, length: int)
    ensures
        sum(padded(bytes, length)) == sum(bytes),
    decreases length - bytes.len(),
{
    if bytes.len() < length {
        sum_padded(bytes, length - 1);
        assert(padded(bytes, length).drop_last() =~= padded(bytes, length - 1));
        assert(padded(bytes, length).last() == 0);
    }
}

/// The downloads of one phase: how many are expected, how many have started
/// and finished, and how many bytes each has brought.
#[derive(Debug)]
pub struct FetchTally {
    expected_fetches: usize,
    next_index: usize,
    completed: usize,
    bytes_downloaded: Vec<usize>,
    total_bytes_downloaded: usize,
}

/// The downloads of one phase as mathematical values.
pub struct TallyView {
    pub expected: usize,
    pub started: int,
    pub completed: int,
    pub bytes: Seq<usize>,
}

impl View for FetchTally {
    type V = TallyView;

    closed spec fn view(&self) -> TallyView {
        TallyView {
            expected: self.expected_fetches,
            started: self.next_index as int,
            completed: self.completed as int,
            bytes: self.bytes_downloaded@,
        }
    }
}

impl FetchTally {
    /// The total is the sum of what each download has brought.
    #[verifier::type_invariant]
    pub closed spec fn wf(&self) -> bool {
        self.total_bytes_downloaded == wrapped(sum(self.bytes_downloaded@))
    }

    /// No download has started.
    pub fn new(expected_fetches: usize) -> (r: FetchTally)
        ensures
            r@ == (TallyView {
                expected: expected_fetches,
                started: 0,
                completed: 0,
                bytes: Seq::empty(),
            }),
    {
        proof {
            assert(sum(Seq::empty()) == 0);
            vstd::arithmetic::div_mod::lemma_small_mod(0, (usize::MAX + 1) as nat);
        }
        FetchTally {
            expected_fetches,
            next_index: 0,
            completed: 0,
            bytes_downloaded: Vec::new(),
            total_bytes_downloaded: 0,
        }
    }

    /// How many downloads are expected.
    pub fn expected(&self) -> (r: usize)
        ensures
            r == self@.expected,
    {
        self.expected_fetches
    }

    /// How many downloads have started.
    pub fn started(&self) -> (r: usize)
        ensures
            r == self@.started,
    {
        self.next_index
    }

    /// How many downloads have finished.
    pub fn completed(&self) -> (r: usize)
        ensures
            r == self@.completed,
    {
        self.completed
    }

    /// How many bytes all downloads have brought.
    pub fn total_bytes(&self) -> (r: usize)
        ensures
            r == wrapped(sum(self@.bytes)),
    {
        proof {
            use_type_invariant(self);
        }
        self.total_bytes_downloaded
    }

    /// A download starts: gives the number it goes by.
    pub fn start(self) -> (r: (FetchTally, usize))
        requires
            self@.started < usize::MAX,
        ensures
            r.1 == self@.started,
            r.0@ == (TallyView {
                started: self@.started + 1,
                bytes: padded(self@.bytes, self@.started + 1),
                ..self@
            }),
    {
        proof {
            use_type_invariant(&self);
            sum_padded(self.bytes_downloaded@, self.next_index + 1);
        }
        let FetchTally {
            expected_fetches,
            next_index,
            completed,
            bytes_downloaded,
            total_bytes_downloaded,
        } = self;
        let bytes_downloaded = pad(bytes_downloaded, next_index + 1);
        (
            FetchTally {
                expected_fetches,
                next_index: next_index + 1,
                completed,
                bytes_downloaded,
                total_bytes_downloaded,
            },
            next_index,
        )
    }

    /// A download has brought so many bytes by now.
    pub fn advance(self, index: usize, bytes: usize) -> (r: FetchTally)
        requires
            index < usize::MAX,
        ensures
            r@ == (TallyView {
                bytes: padded(self@.bytes, index + 1).update(index as int, bytes),
                ..self@
            }),
    {
        let ghost before = self.bytes_downloaded@;
        proof {
            use_type_invariant(&self);
            sum_padded(before, index + 1);
            sum_update(padded(before, index + 1), index as int, bytes);
        }
        let FetchTally {
            expected_fetches,
            next_index,
            completed,
            bytes_downloaded,
            total_bytes_downloaded,
        } = self;
        let mut bytes_downloaded = pad(bytes_downloaded, index + 1);
        let previous: usize = bytes_downloaded[index];
        bytes_downloaded.set(index, bytes);
        let total: usize = total_bytes_downloaded.wrapping_add(bytes.wrapping_sub(previous));
        proof {
            let m = usize::MAX as int + 1;
            let s = sum(before);
            let step = bytes.wrapping_sub(previous) as int;
            assert(step == bytes - previous || step == bytes - previous + m);
            assert(total == (total_bytes_downloaded + step) || total == (total_bytes_downloaded
                + step) - m);
            let k = s / m;
            vstd::arithmetic::div_mod::lemma_fundamental_div_mod(s, m);
            let after = s + bytes - previous;
            let q = if total == total_bytes_downloaded + bytes - previous {
                k
            } else if total == total_bytes_downloaded + bytes - previous + m {
                k - 1
            } else {
                k + 1
            };
            assert(after == q * m + total) by (nonlinear_arith)
                requires
                    s == m * k + total_bytes_downloaded,
                    after == s + bytes - previous,
                    (q == k && total == total_bytes_downloaded + bytes - previous) || (q == k - 1
                        && total == total_bytes_downloaded + bytes - previous + m) || (q == k + 1
                        && total == total_bytes_downloaded + bytes - previous - m),
            ;
            vstd::arithmetic::div_mod::lemma_fundamental_div_mod_converse(
                after,
                m,
                q,
                total as int,
            );
        }
        FetchTally {
            expected_fetches,
            next_index,
            completed,
            bytes_downloaded,
            total_bytes_downloaded: total,
        }
    }

    /// A download has finished.
    pub fn complete(self) -> (r: FetchTally)
        requires
            self@.completed < usize::MAX,
        ensures
            r@ == (TallyView { completed: self@.completed + 1, ..self@ }),
    {
        proof {
            use_type_invariant(&self);
        }
        let FetchTally {
            expected_fetches,
            next_index,
            completed,
            bytes_downloaded,
            total_bytes_downloaded,
        } = self;
        FetchTally {
            expected_fetches,
            next_index,
            completed: completed + 1,
            bytes_downloaded,
            total_bytes_downloaded,
        }
    }
}

/// Puts zeros behind numbers up to a length.
fn pad(bytes: Vec<usize>, length: usize) -> (r: Vec<usize>)
    ensures
        r@ == padded(bytes@, length as int),
{
    let ghost before = bytes@;
    let mut out = bytes;
    while out.len() < length
        invariant
            out@.len() <= length || out@ == before,
            before.len() <= out@.len(),
            out@ == padded(before, out@.len() as int),
        decreases length - out.len(),
    {
        out.push(0);
        assert(out@ =~= padded(before, out@.len() as int));
    }
    out
}

/// Taking out control characters is done character by character: what is no
/// control character stays, in order, and nothing else does.
pub proof fn printable_by_character(a: Seq<char>, c: char, b: Seq<char>)
    ensures
        printable(a + b) == printable(a) + printable(b),
        printable(seq![c]) == if c < ' ' || ('\u{7f}' <= c && c <= '\u{9f}') {
            Seq::<char>::empty()
        } else {
            seq![c]
        },
    decreases b.len(),
{
    if b.len() == 0 {
        assert(a + b =~= a);
        assert(printable(a) + printable(b) =~= printable(a));
    } else {
        printable_by_character(a, c, b.drop_last());
        assert((a + b).drop_last() =~= a + b.drop_last());
        assert(printable(a + b) =~= printable(a) + printable(b));
    }
    reveal_with_fuel(printable, 2);
    assert(seq![c].drop_last() =~= Seq::<char>::empty());
    assert(Seq::<char>::empty().push(c) =~= seq![c]);
}

/// What is shown of a text is as much of its start as fits: all of it, or one
/// character less than fits and an ellipsis.
pub proof fn shortened_is_a_start(s: Seq<char>, max_width: nat)
    ensures
        s.len() <= max_width ==> shortened(s, max_width) == s,
        s.len() > max_width && max_width > 0 ==> shortened(s, max_width).len() == max_width
            && shortened(s, max_width).last() == '\u{2026}' && shortened(
            s,
            max_width,
        ).drop_last().is_prefix_of(s),
        max_width == 0 ==> shortened(s, max_width).len() == 0,
{
    if s.len() > max_width && max_width > 0 {
        assert(shortened(s, max_width).drop_last() =~= s.take(max_width - 1));
    }
}

/// All columns of a terminal but the last are used, and at least one; a
/// terminal of unknown width has eighty.
pub proof fn one_column_is_left_free(width: usize)
    ensures
        width >= 2 ==> usable_width(Some(width)) == width - 1,
        width < 2 ==> usable_width(Some(width)) == 1,
        usable_width(None) == 79,
{
}

/// A line is redrawn at most every thirty-three milliseconds, and the first
/// time at once.
pub proof fn redraws_keep_their_distance(last: u64, now: u64)
    ensures
        redraw_is_due(None, now),
        redraw_is_due(Some(last), now) <==> now >= last + 33000000,
{
}

/// A bar has as many filled cells in front as there are, up to its width, and
/// empty ones behind.
pub proof fn bar_is_filled_from_the_front(filled: nat, width: nat, i: int)
    requires
        0 <= i < width,
    ensures
        bar_text(filled, width).len() == width,
        bar_text(filled, width)[i] == if i < filled {
            '\u{2588}'
        } else {
            '\u{2591}'
        },
{
}

/// What all downloads have brought is what each has, added up; a download
/// that has brought nothing adds nothing.
pub proof fn totals_add_up(a: Seq<usize>, n: usize, length: int)
    ensures
        sum(Seq::empty()) == 0,
        sum(a.push(n)) == sum(a) + n,
        sum(padded(a, length)) == sum(a),
        a.is_prefix_of(padded(a, length)),
        padded(a, length).len() >= length,
        wrapped(length) == length || length < 0 || length > usize::MAX,
{
    assert(a.push(n).drop_last() =~= a);
    sum_padded(a, length);
    if 0 <= length <= usize::MAX {
        vstd::arithmetic::div_mod::lemma_small_mod(length as nat, (usize::MAX + 1) as nat);
    }
}

} // verus!
