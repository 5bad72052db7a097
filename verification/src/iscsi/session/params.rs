//! Operational parameters negotiated during login (RFC 7143 subset).
use vstd::prelude::*;
use crate::text;

verus! {

/// Operational parameters. We start at RFC defaults and fold in the initiator's
/// offered keys with the correct per-key rule (min for sizes, AND for the two
/// boolean flow keys, declarative for MaxRecvDataSegmentLength).
#[derive(Debug, Clone, Copy, PartialEq, Eq, Structural)]
pub struct SessionParams {
    /// Most bytes the *initiator* will accept in one Data-In data segment.
    pub max_recv_data_segment_length: u32,
    /// Max unsolicited (immediate + first burst) write bytes per command.
    pub first_burst_length: u32,
    /// Max bytes per solicited (R2T) burst.
    pub max_burst_length: u32,
    /// May the initiator send immediate data with the command?
    pub immediate_data: bool,
    /// Must the target solicit *all* write data via R2T (no unsolicited burst)?
    pub initial_r2t: bool,
}

/// The RFC's defaults.
pub open spec fn defaults() -> SessionParams {
    SessionParams {
        max_recv_data_segment_length: 8192,
        first_burst_length: 65536,
        max_burst_length: 262144,
        immediate_data: true,
        initial_r2t: true,
    }
}

impl Default for SessionParams {
    fn default() -> (p: Self)
        ensures
            p == defaults(),
    {
        SessionParams {
            max_recv_data_segment_length: 8192,
            first_burst_length: 65536,
            max_burst_length: 262144,
            immediate_data: true,
            initial_r2t: true,
        }
    }
}

/// The smaller of a size and an offer, or the size where the offer is no
/// number.
pub open spec fn lowered(size: u32, offer: Option<int>) -> u32 {
    match offer {
        Some(v) => if v < size {
            v as u32
        } else {
            size
        },
        None => size,
    }
}

/// The parameters after one `Key=Value` offer.
pub open spec fn negotiated(p: SessionParams, key: Seq<char>, value: Seq<char>) -> SessionParams {
    let number = text::parse_number(value, u32::MAX as int);
    let yes = text::same_ignoring_case(value, "Yes"@);
    if key == "MaxRecvDataSegmentLength"@ {
        SessionParams {
            max_recv_data_segment_length: match number {
                Some(v) => v as u32,
                None => p.max_recv_data_segment_length,
            },
            ..p
        }
    } else if key == "FirstBurstLength"@ {
        SessionParams { first_burst_length: lowered(p.first_burst_length, number), ..p }
    } else if key == "MaxBurstLength"@ {
        SessionParams { max_burst_length: lowered(p.max_burst_length, number), ..p }
    } else if key == "ImmediateData"@ {
        SessionParams { immediate_data: p.immediate_data && yes, ..p }
    } else if key == "InitialR2T"@ {
        SessionParams { initial_r2t: p.initial_r2t && yes, ..p }
    } else {
        p
    }
}

/// The parameters after a list of offers, in order.
pub open spec fn negotiated_all(
    p: SessionParams,
    pairs: Seq<(Seq<char>, Seq<char>)>,
) -> SessionParams
    decreases pairs.len(),
{
    if pairs.len() == 0 {
        p
    } else {
        let before = negotiated_all(p, pairs.drop_last());
        negotiated(before, pairs.last().0, pairs.last().1)
    }
}

fn lower_to(size: u32, offer: Option<u32>) -> (r: u32)
    ensures
        r == lowered(
            size,
            match offer {
                Some(v) => Some(v as int),
                None => None,
            },
        ),
{
    match offer {
        Some(v) => if v < size {
            v
        } else {
            size
        },
        None => size,
    }
}

impl SessionParams {
    /// Fold one negotiated `Key=Value` pair into the parameters. Unknown keys are
    /// ignored. Malformed numeric values are ignored (keep the current value).
    pub fn negotiate(&mut self, key: &str, value: &str)
        ensures
            *final(self) == negotiated(*old(self), key@, value@),
    {
        if text::same_text(key, "MaxRecvDataSegmentLength") {
            match text::parse_u32(value) {
                Some(v) => {
                    self.max_recv_data_segment_length = v;  // declarative: take theirs
                },
                None => {},
            }
        } else if text::same_text(key, "FirstBurstLength") {
            self.first_burst_length = lower_to(self.first_burst_length, text::parse_u32(value));
        } else if text::same_text(key, "MaxBurstLength") {
            self.max_burst_length = lower_to(self.max_burst_length, text::parse_u32(value));
        } else if text::same_text(key, "ImmediateData") {
            self.immediate_data = text::eq_ignore_ascii_case(value, "Yes") && self.immediate_data;
        } else if text::same_text(key, "InitialR2T") {
            self.initial_r2t = text::eq_ignore_ascii_case(value, "Yes") && self.initial_r2t;
        }
    }
}

/// Negotiation only narrows: burst sizes never grow and a flow key once at No
/// stays there, whatever the initiator offers. What it declares to accept per
/// segment is its own.
pub proof fn negotiation_only_narrows(p: SessionParams, pairs: Seq<(Seq<char>, Seq<char>)>)
    ensures
        negotiated_all(p, pairs).first_burst_length <= p.first_burst_length,
        negotiated_all(p, pairs).max_burst_length <= p.max_burst_length,
        negotiated_all(p, pairs).immediate_data ==> p.immediate_data,
        negotiated_all(p, pairs).initial_r2t ==> p.initial_r2t,
    decreases pairs.len(),
{
    if pairs.len() > 0 {
        negotiation_only_narrows(p, pairs.drop_last());
        text::parse_number_range(pairs.last().1, u32::MAX as int);
    }
}

} // verus!
