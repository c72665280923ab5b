use vstd::prelude::*;

verus! {

/// The number of newline bytes in `b`.
pub open spec fn count_newlines(b: Seq<u8>) -> nat
    decreases b.len(),
{
    if b.len() == 0 {
        0
    } else {
        count_newlines(b.drop_last()) + if b.last() == 10u8 {
            1nat
        } else {
            0nat
        }
    }
}

/// Whether `b` ends inside a line that no newline has closed yet.
pub open spec fn ends_open(b: Seq<u8>) -> bool {
    b.len() > 0 && b.last() != 10u8
}

/// The number of newline-delimited lines in `b`: one per newline, and one
/// more for text after the last newline.
pub open spec fn line_count(b: Seq<u8>) -> nat {
    count_newlines(b) + if ends_open(b) {
        1nat
    } else {
        0nat
    }
}

/// Seconds to translate `lines` lines at 500 lines per 120 seconds, rounded
/// up.
pub open spec fn seconds_for(lines: nat) -> nat {
    ((lines * 120 + 499) / 500) as nat
}

/// Counts the lines of a file fed to it chunk by chunk, so that a file of
/// any size is counted without holding it in memory.
pub struct LineCounter {
    newlines: u64,
    open_line: bool,
    seen: Ghost<Seq<u8>>,
}

impl LineCounter {
    /// The bytes fed so far.
    pub closed spec fn consumed(&self) -> Seq<u8> {
        self.seen@
    }

    pub closed spec fn wf(&self) -> bool {
        &&& self.newlines as nat == count_newlines(self.seen@)
        &&& self.open_line == ends_open(self.seen@)
        &&& self.open_line ==> self.newlines < u64::MAX
    }

    pub fn new() -> (c: LineCounter)
        ensures
            c.wf(),
            c.consumed() == Seq::<u8>::empty(),
    {
        LineCounter { newlines: 0, open_line: false, seen: Ghost(Seq::empty()) }
    }

    /// The newlines fed so far.
    pub fn newlines(&self) -> (r: u64)
        requires
            self.wf(),
        ensures
            r as nat == count_newlines(self.consumed()),
    {
        self.newlines
    }

    /// Takes the next chunk of the file.
    pub fn feed(&mut self, chunk: &[u8])
        requires
            old(self).wf(),
            count_newlines(old(self).consumed()) + chunk@.len() <= u64::MAX,
        ensures
            final(self).wf(),
            final(self).consumed() == old(self).consumed() + chunk@,
    {
        let ghost start = self.seen@;
        let mut i: usize = 0;
        assert(start + chunk@.take(0) =~= start);
        while i < chunk.len()
            invariant
                i <= chunk@.len(),
                self.wf(),
                self.seen@ == start + chunk@.take(i as int),
                self.newlines + (chunk@.len() - i) <= u64::MAX,
            decreases chunk@.len() - i,
        {
            let b = chunk[i];
            let ghost prev = self.seen@;
            let ghost next = prev.push(b);
            assert(next.drop_last() =~= prev);
            assert(start + chunk@.take(i + 1) =~= next);
            if b == 10u8 {
                self.newlines = self.newlines + 1;
                self.open_line = false;
            } else {
                self.open_line = true;
            }
            self.seen = Ghost(next);
            i = i + 1;
        }
        assert(chunk@.take(i as int) =~= chunk@);
    }

    /// The lines counted in what was fed.
    pub fn lines(&self) -> (r: u64)
        requires
            self.wf(),
        ensures
            r as nat == line_count(self.consumed()),
    {
        if self.open_line {
            self.newlines + 1
        } else {
            self.newlines
        }
    }
}

/// Seconds to translate a file of `lines` lines: `ceil(lines / 500 * 120)`.
pub fn seconds_for_lines(lines: u64) -> (r: u64)
    ensures
        r as nat == seconds_for(lines as nat),
{
    let q: u64 = lines / 25;
    let m: u64 = lines % 25;
    proof {
        assert(lines as int == 25 * q + m) by (nonlinear_arith)
            requires
                q == lines / 25,
                m == lines % 25,
        ;
        assert((lines as int * 120 + 499) / 500 == 6 * q + (m as int * 6 + 24) / 25) by (
        nonlinear_arith)
            requires
                lines as int == 25 * q + m,
                0 <= m < 25,
        ;
        assert(q * 6 <= lines) by (nonlinear_arith)
            requires
                q == lines / 25,
        ;
    }
    q * 6 + (m * 6 + 24) / 25
}

/// The advisory estimate for a file: `None` stands for a file that does not
/// exist or could not be opened, which is estimated at zero seconds.
pub fn estimate_seconds(lines: Option<u64>) -> (r: u64)
    ensures
        lines is None ==> r == 0,
        lines matches Some(n) ==> r as nat == seconds_for(n as nat),
{
    match lines {
        None => 0,
        Some(n) => seconds_for_lines(n),
    }
}

} // verus!
