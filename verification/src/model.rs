//! Data carried across the supervisor's interface, and the byte-bounded,
//! line-oriented output buffer owned by each agent.

use vstd::prelude::*;
use vstd::string::StringSliceAdditionalSpecFns;
use std::collections::VecDeque;

verus! {

/// What a caller supplies to create an agent. The environment is an explicit
/// allowlist of variables; nothing else is passed to the spawned process.
pub struct CreateAgentRequest {
    pub name: Option<String>,
    pub working_dir: Option<String>,
    pub env: Vec<(String, String)>,
    pub args: Vec<String>,
}

/// What a successful creation returns: the opaque handle and the OS pid.
pub struct CreateAgentResponse {
    pub agent_id: String,
    pub pid: u32,
}

/// One row of the agent listing.
pub struct AgentInfo {
    pub agent_id: String,
    pub name: Option<String>,
    pub pid: u32,
    /// Creation time as a Unix timestamp in seconds.
    pub created_at: i64,
    pub status: String,
}

/// The UTF-8 byte length of a line, the unit the buffer's capacity is
/// accounted in.
pub open spec fn line_bytes(s: Seq<char>) -> nat {
    vstd::utf8::encode_utf8(s).len()
}

/// The stored lines of a buffer as plain character sequences.
pub open spec fn views_of(lines: Seq<String>) -> Seq<Seq<char>> {
    Seq::new(lines.len(), |i: int| lines[i]@)
}

/// Total byte length of a sequence of stored lines.
pub open spec fn total_bytes(lines: Seq<Seq<char>>) -> nat
    decreases lines.len(),
{
    if lines.len() == 0 {
        0
    } else {
        line_bytes(lines.first()) + total_bytes(lines.drop_first())
    }
}

/// The reading of a buffer: every stored line in insertion order, each
/// terminated by a newline, the last included.
pub open spec fn concat_lines(lines: Seq<Seq<char>>) -> Seq<char>
    decreases lines.len(),
{
    if lines.len() == 0 {
        Seq::empty()
    } else {
        lines.first() + seq!['\n'] + concat_lines(lines.drop_first())
    }
}

/// The stored lines after pushing `line` into a buffer holding `lines` with
/// byte capacity `cap`: the oldest lines are evicted until the new total
/// fits, but the line just pushed is never evicted, so a single line longer
/// than the capacity stays, alone.
pub open spec fn pushed_lines(lines: Seq<Seq<char>>, cap: nat, line: Seq<char>) -> Seq<Seq<char>>
    decreases lines.len(),
{
    if lines.len() == 0 || total_bytes(lines) + line_bytes(line) <= cap {
        lines.push(line)
    } else {
        pushed_lines(lines.drop_first(), cap, line)
    }
}

proof fn lemma_total_bytes_push(lines: Seq<Seq<char>>, line: Seq<char>)
    ensures
        total_bytes(lines.push(line)) == total_bytes(lines) + line_bytes(line),
    decreases lines.len(),
{
    if lines.len() == 0 {
        assert(lines.push(line).first() == line);
        assert(lines.push(line).drop_first() =~= Seq::<Seq<char>>::empty());
        assert(total_bytes(Seq::<Seq<char>>::empty()) == 0);
    } else {
        lemma_total_bytes_push(lines.drop_first(), line);
        assert(lines.push(line).first() == lines.first());
        assert(lines.push(line).drop_first() =~= lines.drop_first().push(line));
    }
}

/// A byte-bounded FIFO of text lines. `current_bytes` tracks the summed byte
/// length of the stored lines; pushes evict from the front until the total is
/// back within `capacity_bytes`, except that the newest line is never evicted.
pub struct AgentOutputBuffer {
    pub lines: VecDeque<String>,
    pub capacity_bytes: usize,
    pub current_bytes: usize,
}

impl AgentOutputBuffer {
    /// The stored lines, as plain character sequences, oldest first.
    pub open spec fn lines_view(&self) -> Seq<Seq<char>> {
        views_of(self.lines@)
    }

    /// The buffer's invariant: the running total is exact, and it exceeds the
    /// capacity only when a single stored line alone does.
    pub open spec fn wf(&self) -> bool {
        &&& self.current_bytes == total_bytes(self.lines_view())
        &&& self.current_bytes <= self.capacity_bytes || self.lines_view().len() == 1
    }

    pub fn new(capacity_bytes: usize) -> (buf: Self)
        ensures
            buf.wf(),
            buf.lines_view() =~= Seq::<Seq<char>>::empty(),
            buf.capacity_bytes == capacity_bytes,
            buf.current_bytes == 0,
    {
        let buf = AgentOutputBuffer {
            lines: VecDeque::new(),
            capacity_bytes,
            current_bytes: 0,
        };
        proof {
            assert(buf.lines_view() =~= Seq::<Seq<char>>::empty());
        }
        buf
    }

    /// Append a line, evicting oldest lines first until the byte total fits
    /// the capacity; the line just pushed is kept even when it alone exceeds
    /// the capacity.
    pub fn push_line(&mut self, line: String)
        requires
            old(self).wf(),
        ensures
            final(self).wf(),
            final(self).capacity_bytes == old(self).capacity_bytes,
            final(self).lines_view() == pushed_lines(
                old(self).lines_view(),
                old(self).capacity_bytes as nat,
                line@,
            ),
    {
        let added = line.as_str().as_bytes().len();
        proof {
            assert(added == line_bytes(line@));
        }
        while self.lines.len() > 0 && (added > self.capacity_bytes || self.current_bytes
            > self.capacity_bytes - added)
            invariant
                self.current_bytes == total_bytes(self.lines_view()),
                self.capacity_bytes == old(self).capacity_bytes,
                line_bytes(line@) == added,
                pushed_lines(self.lines_view(), self.capacity_bytes as nat, line@) == pushed_lines(
                    old(self).lines_view(),
                    old(self).capacity_bytes as nat,
                    line@,
                ),
            decreases self.lines@.len(),
        {
            let ghost pre = self.lines_view();
            let front = self.lines.pop_front();
            proof {
                assert(self.lines_view() =~= pre.drop_first());
            }
            match front {
                Some(f) => {
                    let flen = f.as_str().as_bytes().len();
                    self.current_bytes = self.current_bytes - flen;
                },
                None => {},
            }
        }
        let ghost evicted = self.lines_view();
        proof {
            lemma_total_bytes_push(evicted, line@);
        }
        self.lines.push_back(line);
        self.current_bytes = self.current_bytes + added;
        proof {
            assert(self.lines_view() =~= evicted.push(line@));
        }
    }

    /// Clear the buffer in place.
    pub fn clear(&mut self)
        ensures
            final(self).wf(),
            final(self).capacity_bytes == old(self).capacity_bytes,
            final(self).lines_view() =~= Seq::<Seq<char>>::empty(),
            final(self).current_bytes == 0,
    {
        self.lines.clear();
        self.current_bytes = 0;
        proof {
            assert(self.lines_view() =~= Seq::<Seq<char>>::empty());
        }
    }

    /// Read the whole buffer: stored lines in insertion order, each
    /// newline-terminated, the last included.
    pub fn concat(&self) -> (r: String)
        ensures
            r@ == concat_lines(self.lines_view()),
    {
        let mut r = String::new();
        let n = self.lines.len();
        let mut i: usize = 0;
        proof {
            assert(self.lines_view().skip(0) =~= self.lines_view());
        }
        while i < n
            invariant
                n == self.lines@.len(),
                i <= n,
                concat_lines(self.lines_view()) == r@ + concat_lines(
                    self.lines_view().skip(i as int),
                ),
            decreases n - i,
        {
            proof {
                reveal_strlit("\n");
                assert("\n"@ =~= seq!['\n']);
                assert(self.lines_view().skip(i as int).first() == self.lines_view()[i as int]);
                assert(self.lines_view().skip(i as int).drop_first() =~= self.lines_view().skip(
                    i + 1,
                ));
            }
            let l = &self.lines[i];
            r.append(l.as_str());
            r.append("\n");
            i = i + 1;
        }
        proof {
            assert(self.lines_view().skip(n as int) =~= Seq::<Seq<char>>::empty());
            assert(r@ + Seq::<char>::empty() =~= r@);
        }
        r
    }
}

/// A push always stores the pushed line, newest, in full — eviction only
/// ever removes other lines, so a line longer than the whole capacity
/// still arrives intact.
pub proof fn lemma_pushed_line_kept(lines: Seq<Seq<char>>, cap: nat, line: Seq<char>)
    ensures
        pushed_lines(lines, cap, line).len() >= 1,
        pushed_lines(lines, cap, line).last() == line,
    decreases lines.len(),
{
    if !(lines.len() == 0 || total_bytes(lines) + line_bytes(line) <= cap) {
        lemma_pushed_line_kept(lines.drop_first(), cap, line);
    } else {
        assert(lines.push(line).last() == line);
    }
}

/// Where line `i` starts inside the buffer's reading: after the earlier
/// lines and their newlines.
pub open spec fn chars_before(lines: Seq<Seq<char>>, i: int) -> int
    decreases i,
{
    if i <= 0 {
        0
    } else {
        lines.first().len() + 1 + chars_before(lines.drop_first(), i - 1)
    }
}

/// Reading the buffer preserves insertion order and terminates every line:
/// line `i` sits unchanged at the offset left by the lines before it, and
/// the character right after it is a newline.
pub proof fn lemma_concat_keeps_order(lines: Seq<Seq<char>>, i: int)
    requires
        0 <= i < lines.len(),
    ensures
        ({
            let off = chars_before(lines, i);
            &&& 0 <= off
            &&& off + lines[i].len() < concat_lines(lines).len()
            &&& concat_lines(lines).subrange(off, off + lines[i].len()) == lines[i]
            &&& concat_lines(lines)[off + lines[i].len()] == '\n'
        }),
    decreases i,
{
    let whole = concat_lines(lines);
    let head = lines.first() + seq!['\n'];
    let tail = concat_lines(lines.drop_first());
    assert(whole == lines.first() + seq!['\n'] + tail);
    if i == 0 {
        assert(whole.subrange(0, lines[0].len() as int) =~= lines[0]);
        assert(whole[lines[0].len() as int] == '\n');
    } else {
        lemma_concat_keeps_order(lines.drop_first(), i - 1);
        let off_tail = chars_before(lines.drop_first(), i - 1);
        let off = chars_before(lines, i);
        assert(off == lines.first().len() + 1 + off_tail);
        assert(lines.drop_first()[i - 1] == lines[i]);
        assert(whole.len() == head.len() + tail.len());
        assert forall|x: int| 0 <= x < tail.len() implies whole[head.len() + x] == tail[x] by {}
        assert(whole.subrange(off, off + lines[i].len()) =~= tail.subrange(
            off_tail,
            off_tail + lines[i].len(),
        ));
        assert(whole[off + lines[i].len()] == tail[off_tail + lines[i].len()]);
    }
}

/// A buffer meeting its invariant keeps its byte total within capacity,
/// except that one stored line alone may exceed it, by that line's own
/// excess only.
pub proof fn lemma_buffer_within_capacity(buf: AgentOutputBuffer)
    requires
        buf.wf(),
    ensures
        buf.current_bytes <= buf.capacity_bytes || (buf.lines_view().len() == 1
            && buf.current_bytes == line_bytes(buf.lines_view()[0])),
{
    if buf.current_bytes > buf.capacity_bytes {
        assert(buf.lines_view().drop_first().len() == 0);
        assert(total_bytes(buf.lines_view().drop_first()) == 0);
        assert(buf.lines_view().first() == buf.lines_view()[0]);
        assert(total_bytes(buf.lines_view()) == line_bytes(buf.lines_view()[0]));
    }
}

/// String equality by content. Verified byte-for-byte comparison; the view
/// equality follows from UTF-8 decoding being the inverse of encoding.
pub fn str_eq(a: &str, b: &str) -> (r: bool)
    ensures
        r == (a@ == b@),
{
    let ab = a.as_bytes();
    let bb = b.as_bytes();
    if ab.len() != bb.len() {
        return false;
    }
    let n = ab.len();
    let mut i: usize = 0;
    while i < n
        invariant
            n == ab@.len(),
            n == bb@.len(),
            i <= n,
            ab@ == a.spec_bytes(),
            bb@ == b.spec_bytes(),
            forall|j: int| 0 <= j < i ==> ab@[j] == bb@[j],
        decreases n - i,
    {
        if ab[i] != bb[i] {
            return false;
        }
        i = i + 1;
    }
    proof {
        assert(ab@ =~= bb@);
        vstd::utf8::encode_utf8_decode_utf8(a@);
        vstd::utf8::encode_utf8_decode_utf8(b@);
    }
    true
}

} // verus!
