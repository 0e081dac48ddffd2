//! The client count and the proxy's capacity. The count goes up when a
//! session asks for a token and down when it gives it back; with a non-zero
//! capacity at most that many sessions hold a permit at once (the waiting
//! for a permit is the caller's).
use vstd::prelude::*;

verus! {

/// `c + 1`, wrapping from `i64::MAX` to `i64::MIN` as the counter does.
pub open spec fn count_up(c: i64) -> i64 {
    if c == i64::MAX {
        i64::MIN
    } else {
        (c + 1) as i64
    }
}

/// `c - 1`, wrapping from `i64::MIN` to `i64::MAX` as the counter does.
pub open spec fn count_down(c: i64) -> i64 {
    if c == i64::MIN {
        i64::MAX
    } else {
        (c - 1) as i64
    }
}

/// The client count and capacity (0: no limit).
pub struct Tokens {
    capacity: u32,
    clients: i64,
}

impl Tokens {
    /// The number of clients counted.
    pub closed spec fn clients(&self) -> i64 {
        self.clients
    }

    /// The capacity the tokens were made with.
    pub closed spec fn capacity(&self) -> u32 {
        self.capacity
    }

    /// No client counted yet.
    pub fn new(capacity: u32) -> (t: Tokens)
        ensures
            t.clients() == 0,
            t.capacity() == capacity,
    {
        Tokens { capacity, clients: 0 }
    }

    /// The number of permits to share out: the capacity when it is not zero,
    /// none (no limit) when it is.
    pub fn permits(&self) -> (r: Option<usize>)
        ensures
            r == (if self.capacity() > 0 {
                Some(self.capacity() as usize)
            } else {
                None::<usize>
            }),
    {
        if self.capacity > 0 {
            Some(self.capacity as usize)
        } else {
            None
        }
    }

    /// Counts one more client; tells whether the client must then wait for a
    /// permit (exactly when the capacity is not zero).
    pub fn get(&mut self) -> (needs_permit: bool)
        ensures
            final(self).clients() == count_up(old(self).clients()),
            final(self).capacity() == old(self).capacity(),
            needs_permit == (old(self).capacity() > 0),
    {
        self.clients = self.clients.wrapping_add(1);
        self.capacity > 0
    }

    /// Counts one client fewer.
    pub fn ret(&mut self)
        ensures
            final(self).clients() == count_down(old(self).clients()),
            final(self).capacity() == old(self).capacity(),
    {
        self.clients = self.clients.wrapping_sub(1);
    }

    /// The number of clients counted.
    pub fn count(&self) -> (r: i64)
        ensures
            r == self.clients(),
    {
        self.clients
    }
}

/// Giving a token back undoes taking one: the count returns to where it was,
/// whatever it was.
pub proof fn lemma_ret_undoes_get(c: i64)
    ensures
        count_down(count_up(c)) == c,
{
}

/// Taking `n` tokens from a fresh counter counts `n` clients (for `n` up to
/// `i64::MAX`).
pub proof fn lemma_count_after_gets(n: nat)
    requires
        n <= i64::MAX,
    ensures
        count_ups(0, n) == n,
    decreases n,
{
    if n > 0 {
        lemma_count_after_gets((n - 1) as nat);
    }
}

/// The count after `n` further clients, starting from `c`.
pub open spec fn count_ups(c: i64, n: nat) -> i64
    decreases n,
{
    if n == 0 {
        c
    } else {
        count_up(count_ups(c, (n - 1) as nat))
    }
}

/// `x` reduced into the range of `i64` modulo 2^64, as two's-complement
/// arithmetic wraps it.
pub open spec fn wrap_i64(x: int) -> i64 {
    let m = x % 0x1_0000_0000_0000_0000;
    if m > i64::MAX {
        (m - 0x1_0000_0000_0000_0000) as i64
    } else {
        m as i64
    }
}

/// The count after the operations `ops` from `c`, in order: `true` takes a
/// token (`get`), `false` gives one back (`ret`).
pub open spec fn count_after(c: i64, ops: Seq<bool>) -> i64
    decreases ops.len(),
{
    if ops.len() == 0 {
        c
    } else {
        let prev = count_after(c, ops.drop_last());
        if ops.last() {
            count_up(prev)
        } else {
            count_down(prev)
        }
    }
}

/// The number of takes in `ops`.
pub open spec fn takes(ops: Seq<bool>) -> nat
    decreases ops.len(),
{
    if ops.len() == 0 {
        0
    } else {
        takes(ops.drop_last()) + if ops.last() {
            1nat
        } else {
            0nat
        }
    }
}

/// The number of give-backs in `ops`.
pub open spec fn gives(ops: Seq<bool>) -> nat
    decreases ops.len(),
{
    if ops.len() == 0 {
        0
    } else {
        gives(ops.drop_last()) + if ops.last() {
            0nat
        } else {
            1nat
        }
    }
}

/// One more wraps like one more on the wrapped value.
proof fn lemma_wrap_step(x: int)
    ensures
        count_up(wrap_i64(x)) == wrap_i64(x + 1),
        count_down(wrap_i64(x)) == wrap_i64(x - 1),
{
    let n: int = 0x1_0000_0000_0000_0000;
    let m = x % n;
    let q = x / n;
    assert(x == q * n + m && 0 <= m < n) by (nonlinear_arith)
        requires
            n > 0,
            m == x % n,
            q == x / n,
    ;
    let m1 = (x + 1) % n;
    let m0 = (x - 1) % n;
    if m + 1 < n {
        assert(m1 == m + 1) by (nonlinear_arith)
            requires
                x == q * n + m,
                0 <= m,
                m + 1 < n,
                m1 == (x + 1) % n,
                n > 0,
        ;
    } else {
        assert(m1 == 0) by (nonlinear_arith)
            requires
                x == q * n + m,
                m + 1 == n,
                m1 == (x + 1) % n,
                n > 0,
        ;
    }
    if m >= 1 {
        assert(m0 == m - 1) by (nonlinear_arith)
            requires
                x == q * n + m,
                1 <= m < n,
                m0 == (x - 1) % n,
                n > 0,
        ;
    } else {
        assert(m0 == n - 1) by (nonlinear_arith)
            requires
                x == q * n + m,
                m == 0,
                m0 == (x - 1) % n,
                n > 0,
        ;
    }
}

/// From a fresh counter, after any sequence of takes and give-backs the count
/// is the number of takes minus the number of give-backs, wrapped into `i64`
/// as the counter wraps; when that difference fits in `i64`, it is the
/// difference itself.
pub proof fn lemma_count_is_takes_minus_gives(ops: Seq<bool>)
    ensures
        count_after(0, ops) == wrap_i64(takes(ops) - gives(ops)),
        i64::MIN <= takes(ops) - gives(ops) <= i64::MAX ==> count_after(0, ops) == takes(ops)
            - gives(ops),
    decreases ops.len(),
{
    let d = takes(ops) - gives(ops);
    if ops.len() == 0 {
        assert(wrap_i64(0) == 0);
    } else {
        lemma_count_is_takes_minus_gives(ops.drop_last());
        let d0 = takes(ops.drop_last()) - gives(ops.drop_last());
        lemma_wrap_step(d0);
        if ops.last() {
            assert(d == d0 + 1);
        } else {
            assert(d == d0 - 1);
        }
    }
    if i64::MIN <= d <= i64::MAX {
        let n: int = 0x1_0000_0000_0000_0000;
        if d >= 0 {
            assert(d % n == d) by (nonlinear_arith)
                requires
                    0 <= d < n,
            ;
        } else {
            assert(d % n == d + n) by (nonlinear_arith)
                requires
                    -n < d < 0,
            ;
        }
    }
}

} // verus!
