//! Debug instrumentation: a bounded log and formatted pass timings.

use vstd::prelude::*;

verus! {

/// The decimal digit character for a value below ten.
pub open spec fn digit_char(d: int) -> char {
    ((d + 48) as u8) as char
}

/// The decimal representation of `n`, most significant digit first.
pub open spec fn spec_decimal(n: int) -> Seq<char>
    decreases n,
{
    if n < 10 {
        seq![digit_char(n)]
    } else {
        spec_decimal(n / 10).push(digit_char(n % 10))
    }
}

fn digit_str(d: u64) -> (r: &'static str)
    requires
        d < 10,
    ensures
        r@ == seq![digit_char(d as int)],
{
    proof {
        reveal_strlit("0");
        reveal_strlit("1");
        reveal_strlit("2");
        reveal_strlit("3");
        reveal_strlit("4");
        reveal_strlit("5");
        reveal_strlit("6");
        reveal_strlit("7");
        reveal_strlit("8");
        reveal_strlit("9");
    }
    match d {
        0 => "0",
        1 => "1",
        2 => "2",
        3 => "3",
        4 => "4",
        5 => "5",
        6 => "6",
        7 => "7",
        8 => "8",
        _ => "9",
    }
}

/// Format a value in decimal.
pub fn u64_to_decimal(n: u64) -> (r: String)
    ensures
        r@ == spec_decimal(n as int),
    decreases n,
{
    if n < 10 {
        digit_str(n).to_owned()
    } else {
        let mut prefix = u64_to_decimal(n / 10);
        prefix.append(digit_str(n % 10));
        prefix
    }
}

/// A bounded log (the last ten messages) and the formatted timings of the
/// most recent style, layout and render passes.
pub struct DebugTools {
    pub logs: Vec<String>,
    pub performance_metrics: Vec<String>,
}

impl DebugTools {
    pub fn new() -> (r: DebugTools)
        ensures
            r.logs@.len() == 0,
            r.performance_metrics@.len() == 0,
    {
        DebugTools { logs: Vec::new(), performance_metrics: Vec::new() }
    }

    /// Append a message, dropping the oldest once more than ten are kept.
    pub fn log(&mut self, message: &str)
        ensures
            ({
                let l = old(self).logs@.len();
                if l < 10 {
                    &&& final(self).logs@.len() == l + 1
                    &&& (forall|i: int|
                        0 <= i < l ==> #[trigger] final(self).logs@[i] == old(self).logs@[i])
                    &&& final(self).logs@.last()@ == message@
                } else {
                    &&& final(self).logs@.len() == l
                    &&& (forall|i: int|
                        0 <= i < l - 1 ==> #[trigger] final(self).logs@[i] == old(self).logs@[i
                            + 1])
                    &&& final(self).logs@.last()@ == message@
                }
            }),
            final(self).performance_metrics@ == old(self).performance_metrics@,
    {
        self.logs.push(message.to_owned());
        if self.logs.len() > 10 {
            self.logs.remove(0);
        }
    }

    /// Record the three pass timings, in milliseconds, replacing the
    /// previous record.
    pub fn record_performance_metrics(&mut self, style_ms: u64, layout_ms: u64, render_ms: u64)
        ensures
            final(self).performance_metrics@.len() == 3,
            final(self).performance_metrics@[0]@ == "Style: "@ + spec_decimal(style_ms as int)
                + "ms"@,
            final(self).performance_metrics@[1]@ == "Layout: "@ + spec_decimal(layout_ms as int)
                + "ms"@,
            final(self).performance_metrics@[2]@ == "Render: "@ + spec_decimal(render_ms as int)
                + "ms"@,
            final(self).logs@ == old(self).logs@,
    {
        self.performance_metrics = Vec::new();
        let mut style_line = ("Style: ").to_owned();
        style_line.append(u64_to_decimal(style_ms).as_str());
        style_line.append("ms");
        self.performance_metrics.push(style_line);
        let mut layout_line = ("Layout: ").to_owned();
        layout_line.append(u64_to_decimal(layout_ms).as_str());
        layout_line.append("ms");
        self.performance_metrics.push(layout_line);
        let mut render_line = ("Render: ").to_owned();
        render_line.append(u64_to_decimal(render_ms).as_str());
        render_line.append("ms");
        self.performance_metrics.push(render_line);
    }
}

} // verus!
