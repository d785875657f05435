//! Framing of a server-sent-event stream: text in, data payloads out.
//!
//! Text arrives in pieces of any size. Complete lines are taken off the front; `data:` lines
//! are gathered, and a blank line dispatches what was gathered as one payload. Other fields
//! and comments are skipped.
use vstd::prelude::*;
use vstd::string::*;

use crate::text::find_char;
use crate::text::same_text;
use crate::text::strip_prefix;
use crate::text::trim;
use crate::text::trim_end_returns;
use crate::text::trim_start;

verus! {

/// Whether gathered data is the marker that ends the stream.
pub open spec fn is_end_marker(data: Seq<char>) -> bool {
    crate::text::trimmed(data) == "[DONE]"@
}

/// The value of a `data` field, `None` for any other line.
pub open spec fn data_field(line: Seq<char>) -> Option<Seq<char>> {
    if "data:"@.is_prefix_of(line) {
        Some(crate::text::without_leading_space(line.skip("data:"@.len() as int)))
    } else {
        None
    }
}

/// `data` with one more line of it gathered: lines are kept apart by a line feed.
pub open spec fn gathered(data: Seq<char>, value: Seq<char>) -> Seq<char> {
    if data.len() > 0 {
        data.push('\n') + value
    } else {
        value
    }
}

/// `data` after a line that does not dispatch it.
pub open spec fn after_line(data: Seq<char>, line: Seq<char>) -> Seq<char> {
    match data_field(line) {
        Some(value) => gathered(data, value),
        None => data,
    }
}

/// Where the first line feed of `s` stands.
pub open spec fn line_end(s: Seq<char>) -> int {
    choose|n: int| crate::text::is_first_position(s, '\n', n)
}

/// The first line of `s`, without its line feed and the carriage returns before it.
pub open spec fn first_line(s: Seq<char>) -> Seq<char> {
    crate::text::without_trailing_returns(s.take(line_end(s)))
}

/// What follows the first line of `s`.
pub open spec fn after_first_line(s: Seq<char>) -> Seq<char> {
    s.skip(line_end(s) + 1)
}

/// The outcome of going through the complete lines of a text.
pub struct Scan {
    /// The payloads that were dispatched, in order.
    pub payloads: Seq<Seq<char>>,
    /// The text that is left.
    pub line: Seq<char>,
    /// The data that is gathered and not dispatched.
    pub data: Seq<char>,
    /// Whether the end marker was dispatched; the lines after it are left in `line`.
    pub done: bool,
}

impl Scan {
    /// The same outcome with other payloads dispatched before it.
    pub open spec fn led_by(self, payloads: Seq<Seq<char>>) -> Scan {
        Scan { payloads: payloads + self.payloads, ..self }
    }
}

/// Goes through the complete lines of `line` with `data` gathered before.
pub open spec fn scan(line: Seq<char>, data: Seq<char>) -> Scan
    decreases line.len(),
{
    if line.contains('\n') {
        proof {
            lemma_line_end(line);
        }
        let rest = after_first_line(line);
        if first_line(line).len() == 0 && data.len() > 0 {
            if is_end_marker(data) {
                Scan { payloads: seq![], line: rest, data: seq![], done: true }
            } else {
                scan(rest, seq![]).led_by(seq![data])
            }
        } else {
            scan(rest, after_line(data, first_line(line)))
        }
    } else {
        Scan { payloads: seq![], line, data, done: false }
    }
}

/// A text that holds a line feed holds a first one, and only one is the first.
pub proof fn lemma_line_end(s: Seq<char>)
    requires
        s.contains('\n'),
    ensures
        crate::text::is_first_position(s, '\n', line_end(s)),
        forall|n: int| #[trigger]
            crate::text::is_first_position(s, '\n', n) ==> n == line_end(s),
{
    let k = choose|k: int| 0 <= k < s.len() && s[k] == '\n';
    lemma_first_position_exists(s, k);
}

/// A line feed at `k` comes with a first one.
proof fn lemma_first_position_exists(s: Seq<char>, k: int)
    requires
        0 <= k < s.len(),
        s[k] == '\n',
    ensures
        exists|n: int| crate::text::is_first_position(s, '\n', n),
    decreases k,
{
    if forall|i: int| 0 <= i < k ==> s[i] != '\n' {
        assert(crate::text::is_first_position(s, '\n', k));
    } else {
        let j = choose|j: int| 0 <= j < k && s[j] == '\n';
        lemma_first_position_exists(s, j);
    }
}

/// How a text is cut into pieces does not matter: to go through `first` and then through what
/// it left followed by `second` is to go through both at once. Where `first` dispatches the end
/// marker, all of `second` is left after it.
pub proof fn law_pieces_do_not_matter(first: Seq<char>, second: Seq<char>, data: Seq<char>)
    ensures
        ({
            let s = scan(first, data);
            if s.done {
                scan(first + second, data) == (Scan { line: s.line + second, ..s })
            } else {
                scan(first + second, data) == scan(s.line + second, s.data).led_by(s.payloads)
            }
        }),
    decreases first.len(),
{
    let s = scan(first, data);
    let both = first + second;
    if first.contains('\n') {
        lemma_line_end(first);
        let n = line_end(first);
        assert(crate::text::is_first_position(both, '\n', n));
        assert(both.contains('\n')) by {
            assert(both[n] == '\n');
        }
        lemma_line_end(both);
        assert(both.take(n) =~= first.take(n));
        let rest = after_first_line(first);
        assert(after_first_line(both) =~= rest + second);
        if first_line(first).len() == 0 && data.len() > 0 {
            if !is_end_marker(data) {
                law_pieces_do_not_matter(rest, second, seq![]);
                let t = scan(rest, seq![]);
                assert(scan(t.line + second, t.data).led_by(t.payloads).led_by(seq![data]).payloads
                    =~= scan(t.line + second, t.data).led_by(s.payloads).payloads);
            }
        } else {
            law_pieces_do_not_matter(rest, second, after_line(data, first_line(first)));
        }
    } else {
        assert(scan(both, data).led_by(seq![]).payloads =~= scan(both, data).payloads);
    }
}

/// No payload is empty and none is the end marker; and what a pass leaves is no complete line,
/// unless the end marker stopped it.
pub proof fn law_payloads_are_data(line: Seq<char>, data: Seq<char>)
    ensures
        forall|i: int|
            0 <= i < scan(line, data).payloads.len() ==> (#[trigger] scan(line, data).payloads[i]).len()
                > 0 && !is_end_marker(scan(line, data).payloads[i]),
        !scan(line, data).done ==> !scan(line, data).line.contains('\n'),
        scan(line, data).done ==> scan(line, data).data.len() == 0,
    decreases line.len(),
{
    if line.contains('\n') {
        lemma_line_end(line);
        let rest = after_first_line(line);
        if first_line(line).len() == 0 && data.len() > 0 {
            law_payloads_are_data(rest, seq![]);
        } else {
            law_payloads_are_data(rest, after_line(data, first_line(line)));
        }
    }
}

/// The outcome of going through all complete lines of a text, whatever they dispatch.
pub struct Sweep {
    /// The data that was dispatched, in order, end markers among it.
    pub blocks: Seq<Seq<char>>,
    /// The text that is left.
    pub line: Seq<char>,
    /// The data that is gathered and not dispatched.
    pub data: Seq<char>,
}

impl Sweep {
    /// The same outcome with other data dispatched before it.
    pub open spec fn led_by(self, blocks: Seq<Seq<char>>) -> Sweep {
        Sweep { blocks: blocks + self.blocks, ..self }
    }
}

/// Goes through the complete lines of `line` with `data` gathered before; an end marker does not
/// stop it.
pub open spec fn sweep(line: Seq<char>, data: Seq<char>) -> Sweep
    decreases line.len(),
{
    if line.contains('\n') {
        proof {
            lemma_line_end(line);
        }
        let rest = after_first_line(line);
        if first_line(line).len() == 0 && data.len() > 0 {
            sweep(rest, seq![]).led_by(seq![data])
        } else {
            sweep(rest, after_line(data, first_line(line)))
        }
    } else {
        Sweep { blocks: seq![], line, data }
    }
}

/// All data that a text holds: what its blank lines dispatch, and what is gathered at its end.
pub open spec fn blocks_of(text: Seq<char>) -> Seq<Seq<char>> {
    let s = sweep(text, seq![]);
    if s.data.len() > 0 {
        s.blocks.push(s.data)
    } else {
        s.blocks
    }
}

/// Data without the end markers among it.
pub open spec fn without_markers(blocks: Seq<Seq<char>>) -> Seq<Seq<char>>
    decreases blocks.len(),
{
    if blocks.len() == 0 {
        seq![]
    } else if is_end_marker(blocks.last()) {
        without_markers(blocks.drop_last())
    } else {
        without_markers(blocks.drop_last()).push(blocks.last())
    }
}

/// To go through a text in two pieces is to go through it at once.
pub proof fn lemma_sweep_in_pieces(first: Seq<char>, second: Seq<char>, data: Seq<char>)
    ensures
        ({
            let s = sweep(first, data);
            sweep(first + second, data) == sweep(s.line + second, s.data).led_by(s.blocks)
        }),
        !sweep(first, data).line.contains('\n'),
    decreases first.len(),
{
    let s = sweep(first, data);
    let both = first + second;
    if first.contains('\n') {
        lemma_line_end(first);
        let n = line_end(first);
        assert(crate::text::is_first_position(both, '\n', n));
        assert(both.contains('\n')) by {
            assert(both[n] == '\n');
        }
        lemma_line_end(both);
        assert(both.take(n) =~= first.take(n));
        let rest = after_first_line(first);
        assert(after_first_line(both) =~= rest + second);
        if first_line(first).len() == 0 && data.len() > 0 {
            lemma_sweep_in_pieces(rest, second, seq![]);
            let t = sweep(rest, seq![]);
            assert(sweep(t.line + second, t.data).led_by(t.blocks).led_by(seq![data]).blocks
                =~= sweep(t.line + second, t.data).led_by(s.blocks).blocks);
        } else {
            lemma_sweep_in_pieces(rest, second, after_line(data, first_line(first)));
        }
    } else {
        assert(sweep(both, data).led_by(seq![]).blocks =~= sweep(both, data).blocks);
    }
}

/// A pass that stops at the end marker has gone through the payloads and, if it stopped, the
/// marker, and leaves the rest.
pub proof fn lemma_scan_is_part_of_sweep(line: Seq<char>, data: Seq<char>) -> (gone: Seq<Seq<char>>)
    ensures
        ({
            let s = scan(line, data);
            &&& sweep(line, data) == sweep(s.line, s.data).led_by(gone)
            &&& without_markers(gone) == s.payloads
            &&& s.done ==> gone.len() > 0 && is_end_marker(gone.last())
        }),
    decreases line.len(),
{
    let s = scan(line, data);
    if line.contains('\n') {
        lemma_line_end(line);
        let rest = after_first_line(line);
        if first_line(line).len() == 0 && data.len() > 0 {
            let one = seq![data];
            assert(one.drop_last() =~= seq![]);
            assert(without_markers(one.drop_last()) =~= seq![]);
            if is_end_marker(data) {
                assert(without_markers(one) =~= s.payloads);
                one
            } else {
                let others = lemma_scan_is_part_of_sweep(rest, seq![]);
                lemma_markers_of_parts(one, others);
                assert(without_markers(one) =~= one);
                assert(sweep(s.line, s.data).led_by(others).led_by(one).blocks =~= sweep(
                    s.line,
                    s.data,
                ).led_by(one + others).blocks);
                one + others
            }
        } else {
            lemma_scan_is_part_of_sweep(rest, after_line(data, first_line(line)))
        }
    } else {
        assert(sweep(line, data).led_by(seq![]).blocks =~= sweep(line, data).blocks);
        seq![]
    }
}

/// Data in two parts is without end markers what its parts are without them.
pub proof fn lemma_markers_of_parts(first: Seq<Seq<char>>, second: Seq<Seq<char>>)
    ensures
        without_markers(first + second) == without_markers(first) + without_markers(second),
    decreases second.len(),
{
    if second.len() == 0 {
        assert(first + second =~= first);
        assert(without_markers(first) + without_markers(second) =~= without_markers(first));
    } else {
        lemma_markers_of_parts(first, second.drop_last());
        assert((first + second).drop_last() =~= first + second.drop_last());
        assert(without_markers(first + second) =~= without_markers(first) + without_markers(second));
    }
}

/// Nothing but end markers is nothing without them.
pub proof fn lemma_only_markers(blocks: Seq<Seq<char>>)
    requires
        forall|i: int| 0 <= i < blocks.len() ==> is_end_marker(#[trigger] blocks[i]),
    ensures
        without_markers(blocks) == Seq::<Seq<char>>::empty(),
    decreases blocks.len(),
{
    if blocks.len() > 0 {
        assert forall|i: int| 0 <= i < blocks.drop_last().len() implies is_end_marker(
            #[trigger] blocks.drop_last()[i],
        ) by {
            assert(blocks.drop_last()[i] == blocks[i]);
        }
        lemma_only_markers(blocks.drop_last());
        assert(blocks[blocks.len() - 1] == blocks.last());
    }
}

/// What is left without end markers was there with them.
pub proof fn lemma_found_with_markers(blocks: Seq<Seq<char>>, block: Seq<char>)
    requires
        without_markers(blocks).contains(block),
    ensures
        blocks.contains(block),
    decreases blocks.len(),
{
    let i = without_markers(blocks).index_of(block);
    if blocks.len() > 0 {
        let others = blocks.drop_last();
        if without_markers(others).contains(block) {
            lemma_found_with_markers(others, block);
            let j = others.index_of(block);
            assert(blocks[j] == block);
        } else {
            if is_end_marker(blocks.last()) {
                assert(false);
            } else if i < without_markers(others).len() {
                assert(without_markers(others)[i] == block);
            }
            assert(blocks[blocks.len() - 1] == block);
        }
    }
}

/// A payload as a sender writes it: one `data` line and a blank line.
pub open spec fn written(payload: Seq<char>) -> Seq<char> {
    "data: "@ + payload + seq!['\n', '\n']
}

/// Payloads as a sender writes them, one after the other.
pub open spec fn all_written(payloads: Seq<Seq<char>>) -> Seq<char>
    decreases payloads.len(),
{
    if payloads.len() == 0 {
        seq![]
    } else {
        written(payloads.first()) + all_written(payloads.drop_first())
    }
}

/// A payload that one `data` line carries unchanged: it is not empty, holds no line feed, does
/// not start with white space and does not end in a carriage return.
pub open spec fn fits_one_line(payload: Seq<char>) -> bool {
    &&& payload.len() > 0
    &&& !payload.contains('\n')
    &&& !crate::text::is_white_space(payload.first())
    &&& payload.last() != '\r'
}

/// A payload that fits one line comes back as it was written.
proof fn lemma_written_is_read(payload: Seq<char>, rest: Seq<char>)
    requires
        fits_one_line(payload),
    ensures
        scan(written(payload) + rest, seq![]) == if is_end_marker(payload) {
            Scan { payloads: seq![], line: rest, data: seq![], done: true }
        } else {
            scan(rest, seq![]).led_by(seq![payload])
        },
{
    reveal_strlit("data: ");
    reveal_strlit("data:");
    let whole = written(payload) + rest;
    let head = "data: "@ + payload;
    let n = head.len() as int;
    assert(whole =~= head + seq!['\n', '\n'] + rest);
    assert(crate::text::is_first_position(whole, '\n', n)) by {
        assert forall|i: int| 0 <= i < n implies whole[i] != '\n' by {
            if i >= 6 {
                assert(whole[i] == payload[i - 6]);
                assert(payload.contains(payload[i - 6]));
            }
        }
    }
    assert(whole.contains('\n')) by {
        assert(whole[n] == '\n');
    }
    lemma_line_end(whole);
    assert(whole.take(n) =~= head);
    assert(head.last() == payload.last());
    assert(first_line(whole) == head);
    assert("data:"@.is_prefix_of(head));
    let value = head.skip("data:"@.len() as int);
    assert(value =~= seq![' '] + payload);
    assert(value.drop_first() =~= payload);
    assert(crate::text::without_leading_space(payload) == payload);
    assert(crate::text::without_leading_space(value) == payload);
    assert(after_line(seq![], first_line(whole)) == payload);
    let tail = after_first_line(whole);
    assert(tail =~= seq!['\n'] + rest);
    assert(crate::text::is_first_position(tail, '\n', 0));
    assert(tail.contains('\n')) by {
        assert(tail[0] == '\n');
    }
    lemma_line_end(tail);
    assert(tail.take(0) =~= seq![]);
    assert(after_first_line(tail) =~= rest);
    assert(scan(whole, seq![]) == scan(tail, payload));
}

/// What a sender writes is what is read: payloads that each fit one line come back unchanged and
/// in order, and a `[DONE]` after them ends the stream.
pub proof fn law_written_payloads_are_read(payloads: Seq<Seq<char>>, rest: Seq<char>)
    requires
        forall|i: int|
            0 <= i < payloads.len() ==> fits_one_line(#[trigger] payloads[i]) && !is_end_marker(
                payloads[i],
            ),
    ensures
        scan(all_written(payloads) + rest, seq![]) == scan(rest, seq![]).led_by(payloads),
        scan(all_written(payloads) + written("[DONE]"@) + rest, seq![]) == (Scan {
            payloads,
            line: rest,
            data: seq![],
            done: true,
        }),
    decreases payloads.len(),
{
    if payloads.len() == 0 {
        assert(all_written(payloads) + rest =~= rest);
        assert(scan(rest, seq![]).led_by(payloads).payloads =~= scan(rest, seq![]).payloads);
        assert(all_written(payloads) + written("[DONE]"@) + rest =~= written("[DONE]"@) + rest);
        assert(payloads =~= seq![]);
        lemma_done_is_end_marker();
        lemma_written_is_read("[DONE]"@, rest);
    } else {
        let first = payloads.first();
        let others = payloads.drop_first();
        assert(all_written(payloads) + rest =~= written(first) + (all_written(others) + rest));
        assert(all_written(payloads) + written("[DONE]"@) + rest =~= written(first) + (all_written(
            others,
        ) + written("[DONE]"@) + rest));
        lemma_written_is_read(first, all_written(others) + rest);
        lemma_written_is_read(first, all_written(others) + written("[DONE]"@) + rest);
        law_written_payloads_are_read(others, rest);
        assert(scan(rest, seq![]).led_by(others).led_by(seq![first]).payloads =~= scan(
            rest,
            seq![],
        ).led_by(payloads).payloads);
        assert(seq![first] + others =~= payloads);
    }
}

/// `[DONE]` fits one line and is the end marker.
proof fn lemma_done_is_end_marker()
    ensures
        fits_one_line("[DONE]"@),
        is_end_marker("[DONE]"@),
{
    reveal_strlit("[DONE]");
}

/// The text of a stream that is not dispatched yet.
#[derive(Debug)]
pub struct SseLines {
    /// The text after the last complete line.
    pub line: String,
    /// The data lines that were gathered.
    pub data: String,
}

/// Undispatched text as a mathematical value.
pub struct LinesView {
    pub line: Seq<char>,
    pub data: Seq<char>,
}

impl View for SseLines {
    type V = LinesView;

    open spec fn view(&self) -> LinesView {
        LinesView { line: self.line@, data: self.data@ }
    }
}

/// Whether gathered data is the marker that ends the stream.
pub fn ends_stream(data: &str) -> (b: bool)
    ensures
        b == is_end_marker(data@),
{
    same_text(trim(data), "[DONE]")
}

impl SseLines {
    /// Nothing read yet.
    pub fn new() -> (lines: Self)
        ensures
            lines@ == (LinesView { line: seq![], data: seq![] }),
    {
        SseLines { line: String::new(), data: String::new() }
    }

    /// Gathers `line` if it is a `data` field.
    fn gather(&mut self, line: &str)
        ensures
            final(self)@ == (LinesView {
                line: old(self)@.line,
                data: after_line(old(self)@.data, line@),
            }),
    {
        match strip_prefix(line, "data:") {
            Some(rest) => {
                proof {
                    assert("data:"@.is_prefix_of(line@)) by {
                        assert(line@.subrange(0, "data:"@.len() as int) =~= "data:"@);
                    }
                    assert(line@.skip("data:"@.len() as int) =~= rest@);
                }
                let value = trim_start(rest);
                if !self.data.as_str().is_empty() {
                    proof {
                        reveal_strlit("\n");
                        assert("\n"@ =~= seq!['\n']);
                        assert(self.data@ + "\n"@ =~= self.data@.push('\n'));
                    }
                    self.data.append("\n");
                } else {
                    proof {
                        assert(self.data@ + value@ =~= value@);
                    }
                }
                self.data.append(value);
            },
            None => {},
        }
    }

    /// Takes in `text` and goes through the lines that are complete then. The payloads that
    /// blank lines dispatched come back in order, with whether the end marker was among the
    /// dispatches; it stops the pass, and the lines after it wait for the next text.
    pub fn feed(&mut self, text: &str) -> (r: (Vec<String>, bool))
        ensures
            ({
                let s = scan(old(self)@.line + text@, old(self)@.data);
                &&& final(self)@ == (LinesView { line: s.line, data: s.data })
                &&& r.0.deep_view() == s.payloads
                &&& r.1 == s.done
            }),
    {
        let mut payloads: Vec<String> = Vec::new();
        let ghost whole = scan(self@.line + text@, self@.data);
        self.line.append(text);
        proof {
            assert(payloads.deep_view() =~= seq![]);
            assert(scan(self@.line, self@.data).led_by(payloads.deep_view()).payloads
                =~= whole.payloads);
        }
        loop
            invariant
                whole == scan(old(self)@.line + text@, old(self)@.data),
                whole == scan(self@.line, self@.data).led_by(payloads.deep_view()),
            ensures
                whole.line == self@.line,
                whole.data == self@.data,
                whole.payloads == payloads.deep_view(),
                !whole.done,
            decreases self.line@.len(),
        {
            let len: usize = self.line.as_str().unicode_len();
            match find_char(self.line.as_str(), '\n') {
                None => {
                    proof {
                        assert(whole.payloads =~= payloads.deep_view());
                    }
                    break;
                },
                Some(n) => {
                    proof {
                        assert(self.line@[n as int] == '\n');
                        lemma_line_end(self.line@);
                        assert(self.line@.subrange(0, n as int) =~= self.line@.take(n as int));
                        assert(self.line@.subrange(n + 1, len as int) =~= self.line@.skip(n + 1));
                    }
                    let line = trim_end_returns(self.line.as_str().substring_char(0, n)).to_owned();
                    self.line = self.line.as_str().substring_char(n + 1, len).to_owned();
                    if line.as_str().is_empty() {
                        if !self.data.as_str().is_empty() {
                            let data = self.data.clone();
                            self.data = String::new();
                            if ends_stream(data.as_str()) {
                                proof {
                                    assert(whole.payloads =~= payloads.deep_view());
                                    assert(self.data@ =~= seq![]);
                                }
                                return (payloads, true);
                            }
                            let ghost before = payloads.deep_view();
                            payloads.push(data);
                            proof {
                                assert(payloads.deep_view() =~= before + seq![data@]);
                                assert(self.data@ =~= seq![]);
                                let s = scan(self@.line, self@.data);
                                assert(s.led_by(seq![data@]).led_by(before).payloads =~= s.led_by(
                                    payloads.deep_view(),
                                ).payloads);
                            }
                        } else {
                            proof {
                                reveal_strlit("data:");
                                assert(!"data:"@.is_prefix_of(line@));
                            }
                        }
                    } else {
                        self.gather(line.as_str());
                    }
                },
            }
        }
        (payloads, false)
    }
}

/// Whether data says that the stream is done: `[DONE]`, with nothing but white space around it.
pub open spec fn says_done(data: Seq<char>) -> bool {
    exists|n: int| #[trigger] is_done_at(data, n)
}

/// Whether `[DONE]` stands at `n`, with nothing but white space before and after it.
pub open spec fn is_done_at(data: Seq<char>, n: int) -> bool {
    &&& 0 <= n <= data.len() - 6
    &&& data[n] == '[' && data[n + 1] == 'D' && data[n + 2] == 'O' && data[n + 3] == 'N' && data[n
        + 4] == 'E' && data[n + 5] == ']'
    &&& crate::text::is_blank(data.take(n))
    &&& crate::text::is_blank(data.skip(n + 6))
}

/// The end marker is `[DONE]` between any white space, and nothing else.
pub proof fn law_end_marker(data: Seq<char>)
    ensures
        is_end_marker(data) <==> says_done(data),
{
    reveal_strlit("[DONE]");
    let marker = "[DONE]"@;
    if is_end_marker(data) {
        let n = crate::text::lemma_leading_split(data);
        let rest = data.skip(n);
        let m = crate::text::lemma_trailing_split(rest);
        assert(rest.take(m) == marker);
        assert(m == 6);
        assert forall|i: int| 0 <= i < 6 implies data[n + i] == #[trigger] marker[i] by {
            assert(data[n + i] == rest.take(m)[i]);
        }
        assert(marker[0] == '[' && marker[1] == 'D' && marker[2] == 'O' && marker[3] == 'N'
            && marker[4] == 'E' && marker[5] == ']');
        assert(data[n + 0] == marker[0]);
        assert(rest.skip(m) =~= data.skip(n + 6));
        assert(is_done_at(data, n));
    }
    if says_done(data) {
        let n = choose|n: int| #[trigger] is_done_at(data, n);
        assert(data.subrange(n, n + 6) =~= marker);
        assert(data =~= data.take(n) + marker + data.skip(n + 6));
        crate::text::law_trimming(data.take(n), marker, data.skip(n + 6));
    }
}

/// Whether a line is blank: nothing before the carriage returns that it ends with.
pub open spec fn is_blank_line(line: Seq<char>) -> bool {
    forall|i: int| 0 <= i < line.len() ==> #[trigger] line[i] == '\r'
}

/// Whether a line is one of data.
pub open spec fn is_data_line(line: Seq<char>) -> bool {
    line.len() >= 5 && line[0] == 'd' && line[1] == 'a' && line[2] == 't' && line[3] == 'a'
        && line[4] == ':'
}

/// A text without a line feed waits as it is.
pub proof fn law_open_line_waits(line: Seq<char>, data: Seq<char>)
    requires
        !line.contains('\n'),
    ensures
        scan(line, data) == (Scan { payloads: seq![], line, data, done: false }),
{
}

/// What the first line of a text comes to, unfolded once.
proof fn lemma_first_line(line: Seq<char>, rest: Seq<char>)
    requires
        !line.contains('\n'),
    ensures
        ({
            let text = line.push('\n') + rest;
            &&& text.contains('\n')
            &&& first_line(text) == crate::text::without_trailing_returns(line)
            &&& after_first_line(text) == rest
        }),
{
    let text = line.push('\n') + rest;
    let n = line.len() as int;
    assert(text[n] == '\n');
    assert forall|i: int| 0 <= i < n implies text[i] != '\n' by {
        assert(text[i] == line[i]);
        assert(line.contains(line[i]));
    }
    assert(crate::text::is_first_position(text, '\n', n));
    lemma_line_end(text);
    assert(text.take(n) =~= line);
    assert(text.skip(n + 1) =~= rest);
}

/// A blank line dispatches the data that is gathered, unless there is none; data that says that the
/// stream is done stops the pass and is no payload.
pub proof fn law_blank_line_dispatches(line: Seq<char>, rest: Seq<char>, data: Seq<char>)
    requires
        is_blank_line(line),
    ensures
        ({
            let after = scan(line.push('\n') + rest, data);
            &&& data.len() == 0 ==> after == scan(rest, data)
            &&& data.len() > 0 && says_done(data) ==> after.payloads.len() == 0 && after.line == rest
                && after.data.len() == 0 && after.done
            &&& data.len() > 0 && !says_done(data) ==> {
                let next = scan(rest, seq![]);
                &&& after.payloads == seq![data] + next.payloads
                &&& after.line == next.line
                &&& after.data == next.data
                &&& after.done == next.done
            }
        }),
{
    assert(!line.contains('\n'));
    lemma_first_line(line, rest);
    law_end_marker(data);
    let none: Seq<char> = seq![];
    crate::text::law_trailing_returns_are_dropped(none, line);
    assert(none + line =~= line);
    reveal_strlit("data:");
    assert(!"data:"@.is_prefix_of(none));
}

/// A line that is neither blank nor one of data is skipped.
pub proof fn law_other_lines_are_skipped(line: Seq<char>, rest: Seq<char>, data: Seq<char>)
    requires
        !line.contains('\n'),
        !is_blank_line(line),
        !is_data_line(line),
    ensures
        scan(line.push('\n') + rest, data) == scan(rest, data),
{
    lemma_first_line(line, rest);
    let n = crate::text::lemma_returns_split(line);
    let cut = crate::text::without_trailing_returns(line);
    assert(cut.len() > 0);
    reveal_strlit("data:");
    let field = "data:"@;
    assert(field[0] == 'd' && field[1] == 'a' && field[2] == 't' && field[3] == 'a' && field[4]
        == ':');
    assert(!field.is_prefix_of(cut)) by {
        if field.is_prefix_of(cut) {
            assert forall|i: int| 0 <= i < 5 implies line[i] == #[trigger] field[i] by {
                assert(cut[i] == line[i]);
                assert(cut.subrange(0, 5)[i] == cut[i]);
            }
            assert(line[0] == field[0] && line[1] == field[1] && line[2] == field[2] && line[3]
                == field[3] && line[4] == field[4]);
        }
    }
}

/// A line of data is gathered: its value, without the white space before it and the carriage returns
/// after it, and as it stands otherwise, follows what was gathered, on a line of its own.
pub proof fn law_data_line_is_gathered(
    space: Seq<char>,
    value: Seq<char>,
    tail: Seq<char>,
    rest: Seq<char>,
    data: Seq<char>,
)
    requires
        crate::text::is_blank(space),
        is_blank_line(tail),
        !space.contains('\n'),
        !value.contains('\n'),
        value.len() > 0 ==> !crate::text::has_white_space_property(value[0]) && value.last() != '\r',
    ensures
        scan(
            (seq!['d', 'a', 't', 'a', ':'] + space + value + tail).push('\n') + rest,
            data,
        ) == scan(
            rest,
            if data.len() > 0 {
                data + seq!['\n'] + value
            } else {
                value
            },
        ),
{
    let name = seq!['d', 'a', 't', 'a', ':'];
    let line = name + space + value + tail;
    assert(!line.contains('\n')) by {
        if line.contains('\n') {
            let i = line.index_of('\n');
            if i >= 5 && i < 5 + space.len() {
                assert(line[i] == space[i - 5]);
                assert(space.contains('\n'));
            } else if i >= 5 + space.len() && i < 5 + space.len() + value.len() {
                assert(line[i] == value[i - 5 - space.len()]);
                assert(value.contains('\n'));
            } else if i >= 5 + space.len() + value.len() {
                assert(line[i] == tail[i - 5 - space.len() - value.len()]);
            } else {
                assert(line[i] == name[i]);
            }
        }
    }
    lemma_first_line(line, rest);
    let n = crate::text::lemma_returns_split(line);
    let cut = line.take(n);
    let end = 5 + space.len() + value.len();
    assert(n >= 5) by {
        if n < 5 {
            assert(line[4] == ':');
        }
    }
    if value.len() > 0 {
        assert(line[end - 1] == value.last());
        assert(n >= end);
    }
    assert(n <= end) by {
        if n > end {
            assert(line[n - 1] == tail[n - 1 - end]);
        }
    }
    reveal_strlit("data:");
    let field = "data:"@;
    assert(field =~= name);
    assert(cut.subrange(0, 5) =~= field);
    assert(field.is_prefix_of(cut));
    let after = cut.skip(5);
    if value.len() > 0 {
        assert(after =~= space + value);
        crate::text::law_leading_space_is_dropped(space, value);
    } else {
        let left = n - 5;
        assert(after =~= space.take(left));
        assert forall|i: int| 0 <= i < after.len() implies crate::text::has_white_space_property(
            #[trigger] after[i],
        ) by {
            assert(after[i] == space[i]);
        }
        let none: Seq<char> = seq![];
        crate::text::law_leading_space_is_dropped(after, none);
        assert(after + none =~= after);
        assert(value =~= none);
    }
    assert(crate::text::without_leading_space(after) == value);
    assert(data.push('\n') + value =~= data + seq!['\n'] + value);
    assert(scan(line.push('\n') + rest, data) == scan(rest, after_line(data, cut)));
}

/// Undispatched text is shown as it stands.
pub proof fn law_lines_are_shown(lines: SseLines)
    ensures
        lines@.line == lines.line@,
        lines@.data == lines.data@,
{
}

/// Data ends the stream if and only if it says that it is done.
pub proof fn law_ends_stream(data: &str, ends: bool)
    requires
        call_ensures(ends_stream, (data,), ends),
    ensures
        ends <==> says_done(data@),
{
    law_end_marker(data@);
}

/// What `feed` takes in follows what waited, and nothing is read before the first text.
pub proof fn law_fed_text_follows(text: &str, r: (Vec<String>, bool))
    ensures
        forall|lines: &mut SseLines| #[trigger]
            call_ensures(SseLines::feed, (lines, text), r) ==> {
                let s = scan(lines.line@ + text@, lines.data@);
                &&& final(lines).line@ == s.line
                &&& final(lines).data@ == s.data
                &&& r.0@.len() == s.payloads.len()
                &&& forall|i: int| 0 <= i < r.0@.len() ==> (#[trigger] r.0@[i])@ == s.payloads[i]
                &&& r.1 == s.done
            },
        forall|lines: SseLines| #[trigger]
            call_ensures(SseLines::new, (), lines) ==> lines.line@.len() == 0 && lines.data@.len()
                == 0,
{
    assert forall|lines: &mut SseLines| #[trigger]
        call_ensures(SseLines::feed, (lines, text), r) implies {
        let s = scan(lines.line@ + text@, lines.data@);
        &&& final(lines).line@ == s.line
        &&& final(lines).data@ == s.data
        &&& r.0@.len() == s.payloads.len()
        &&& forall|i: int| 0 <= i < r.0@.len() ==> (#[trigger] r.0@[i])@ == s.payloads[i]
        &&& r.1 == s.done
    } by {
        let s = scan(lines@.line + text@, lines@.data);
        assert(final(lines)@ == (LinesView { line: s.line, data: s.data }));
        let shown = r.0.deep_view();
        assert(shown == s.payloads);
        assert forall|i: int| 0 <= i < r.0@.len() implies (#[trigger] r.0@[i])@ == s.payloads[i] by {
            assert(shown[i] == r.0@[i]@);
        }
    }
    assert forall|lines: SseLines| #[trigger] call_ensures(SseLines::new, (), lines) implies lines.line@.len()
        == 0 && lines.data@.len() == 0 by {
        assert(lines@ == (LinesView { line: seq![], data: seq![] }));
    }
}

} // verus!
