use vstd::prelude::*;

verus! {

/// How many requests one client made in its current window, and when (in
/// milliseconds) that window started.
#[derive(Debug, Clone, Copy, PartialEq, Eq, Structural)]
pub struct WindowCounter {
    pub count: u32,
    pub started_at: u64,
}

/// A fixed-window limit: at most `max_requests` per client in each window
/// of `window_ms` milliseconds.
#[derive(Debug, Clone, Copy)]
pub struct RateLimiter {
    pub max_requests: u32,
    pub window_ms: u64,
}

/// The window a request at `now` counts against: the client's current one,
/// or a fresh one starting at `now` when there is none or it has run out.
/// A clock that went backwards counts as no time elapsed.
pub open spec fn current_window(entry: Option<WindowCounter>, now: u64, window_ms: u64) -> WindowCounter {
    match entry {
        Some(c) => if now > c.started_at && now - c.started_at > window_ms {
            WindowCounter { count: 0, started_at: now }
        } else {
            c
        },
        None => WindowCounter { count: 0, started_at: now },
    }
}

impl RateLimiter {
    /// Decides a request at `now` given the client's counter. Returns whether
    /// it is allowed and the counter to store: a request is allowed while the
    /// window holds fewer than `max_requests`, and only an allowed one counts.
    pub fn check_request(&self, entry: Option<WindowCounter>, now: u64) -> (r: (bool, WindowCounter))
        ensures
            ({
                let w = current_window(entry, now, self.window_ms);
                &&& r.0 == (w.count < self.max_requests)
                &&& r.0 ==> r.1 == (WindowCounter { count: (w.count + 1) as u32, started_at: w.started_at })
                &&& !r.0 ==> r.1 == w
            }),
    {
        let w = match entry {
            Some(c) => if now > c.started_at && now - c.started_at > self.window_ms {
                WindowCounter { count: 0, started_at: now }
            } else {
                c
            },
            None => WindowCounter { count: 0, started_at: now },
        };
        if w.count >= self.max_requests {
            (false, w)
        } else {
            (true, WindowCounter { count: w.count + 1, started_at: w.started_at })
        }
    }
}

} // verus!
