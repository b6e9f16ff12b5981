use vstd::prelude::*;

verus! {

/// Why a requested configuration was rejected before any scanning began.
#[derive(Clone, Copy, PartialEq, Eq, Structural, Debug)]
pub enum ConfigError {
    /// The first port was 0; ports are numbered from 1.
    ZeroStart,
    /// The first port was greater than the last one.
    EmptyRange,
}

/// An inclusive interval of ports `[start, end]`.
///
/// A range is well formed when `start >= 1` and `start <= end`; every range
/// handed out by [`PortRange::new`] is well formed.
#[derive(Clone, Copy, PartialEq, Eq, Structural, Debug)]
pub struct PortRange {
    pub start: u16,
    pub end: u16,
}

impl PortRange {
    pub open spec fn wf(self) -> bool {
        1 <= self.start && self.start <= self.end
    }

    /// How many ports the range covers.
    pub open spec fn len_spec(self) -> nat
        recommends
            self.wf(),
    {
        (self.end - self.start + 1) as nat
    }

    pub open spec fn contains_port(self, p: u16) -> bool {
        self.start <= p && p <= self.end
    }

    /// The ports of the range in ascending order.
    pub open spec fn ports_seq(self) -> Seq<u16>
        recommends
            self.wf(),
    {
        Seq::new(self.len_spec(), |i: int| (self.start + i) as u16)
    }

    /// Validate the requested bounds. Succeeds exactly when `start >= 1`
    /// and `start <= end`; no scanning may begin from rejected bounds.
    pub fn new(start: u16, end: u16) -> (r: Result<PortRange, ConfigError>)
        ensures
            r is Ok <==> (1 <= start && start <= end),
            r is Ok ==> r->Ok_0.start == start && r->Ok_0.end == end && r->Ok_0.wf(),
            start == 0 ==> r == Result::<PortRange, ConfigError>::Err(ConfigError::ZeroStart),
            1 <= start && end < start ==> r == Result::<PortRange, ConfigError>::Err(
                ConfigError::EmptyRange,
            ),
    {
        if start == 0 {
            Err(ConfigError::ZeroStart)
        } else if end < start {
            Err(ConfigError::EmptyRange)
        } else {
            Ok(PortRange { start, end })
        }
    }

    pub fn start(&self) -> (r: u16)
        ensures
            r == self.start,
    {
        self.start
    }

    pub fn end(&self) -> (r: u16)
        ensures
            r == self.end,
    {
        self.end
    }

    /// The number of ports in the range.
    pub fn count(&self) -> (n: usize)
        requires
            self.wf(),
        ensures
            n == self.len_spec(),
    {
        (self.end - self.start) as usize + 1
    }

    /// All ports of the range, ascending.
    pub fn ports(&self) -> (r: Vec<u16>)
        requires
            self.wf(),
        ensures
            r@ == self.ports_seq(),
    {
        let n = self.count();
        let mut v: Vec<u16> = Vec::new();
        let mut i: usize = 0;
        while i < n
            invariant
                self.wf(),
                n == self.len_spec(),
                i <= n,
                v@ =~= self.ports_seq().take(i as int),
            decreases n - i,
        {
            v.push(((self.start as usize + i) as u16));
            i += 1;
        }
        assert(v@ =~= self.ports_seq());
        v
    }
}

} // verus!
