use vstd::prelude::*;
use crate::parameters::{BareMessage, TotalMessage, BARE_MESSAGE_LENGTH_BYTES, TOTAL_MESSAGE_LENGTH_BYTES};
use crate::telemetry::{
    BlockStackData,
    construct_blocks,
    construct_packet,
    encode_packet,
    bare_packet_spec,
    full_packet_spec,
    decode_spec,
    mask_spec,
    reconstruct_spec,
    filled_packet_spec,
    lemma_packet_byte,
};

verus! {

/// Builds the bare packet (without parity) that carries the readings.
pub fn generate_packet_no_fec(readings: BlockStackData) -> (r: BareMessage)
    ensures
        r@ == bare_packet_spec(readings@),
{
    proof {
        lemma_packet_byte(readings@, 0);
    }
    construct_packet(construct_blocks(&readings))
}

/// Builds the full packet (bare packet followed by its parity) that carries the
/// readings. Decoding it gives the bare packet back, and so does decoding any copy of
/// it that differs only at structurally invariant bytes (where the skeleton mask is
/// zero), however many of them are corrupted.
pub fn generate_packet(readings: BlockStackData) -> (r: TotalMessage)
    ensures
        r@ == full_packet_spec(bare_packet_spec(readings@)),
        decode_spec(r@) == Some(bare_packet_spec(readings@)),
        forall|received: Seq<u8>|
            received.len() == TOTAL_MESSAGE_LENGTH_BYTES && (forall|i: int|
                0 <= i < TOTAL_MESSAGE_LENGTH_BYTES && (i >= BARE_MESSAGE_LENGTH_BYTES
                    || mask_spec()[i] != 0) ==> received[i] == r@[i]) ==> #[trigger] decode_spec(received) == Some(bare_packet_spec(readings@)),
{
    let bare = generate_packet_no_fec(readings);
    let full = encode_packet(&bare);
    proof {
        let d = readings@;
        assert forall|i: int| 0 <= i < BARE_MESSAGE_LENGTH_BYTES && mask_spec()[i] == 0 implies
            filled_packet_spec(0)[i] == bare@[i] by {
            lemma_packet_byte(d, i);
        }
        assert forall|received: Seq<u8>|
            received.len() == TOTAL_MESSAGE_LENGTH_BYTES && (forall|i: int|
                0 <= i < TOTAL_MESSAGE_LENGTH_BYTES && (i >= BARE_MESSAGE_LENGTH_BYTES
                    || mask_spec()[i] != 0) ==> received[i] == full@[i]) implies #[trigger] decode_spec(received) == Some(bare@) by {
            assert(reconstruct_spec(received) =~= full@);
        }
        assert(reconstruct_spec(full@) =~= full@);
    }
    full
}

} // verus!
