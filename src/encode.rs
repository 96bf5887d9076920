use vstd::prelude::*;
use crate::uniforms::UniformData;
use crate::unit::Unit;

verus! {

#[verifier::external_type_specification]
#[verifier::external_body]
pub struct ExEncaseError(encase::internal::Error);

/// Why a buffer could not be encoded.
#[derive(Clone, Copy, PartialEq, Eq, Structural, Debug)]
pub enum EncodeError {
    /// The byte buffer could not be grown to the size of the value.
    BufferTooSmall,
}

/// The four bytes of `x` in little-endian order.
pub open spec fn le_bytes(x: i32) -> Seq<u8> {
    let v: int = if x < 0 {
        x + 0x1_0000_0000
    } else {
        x as int
    };
    seq![
        (v % 256) as u8,
        ((v / 0x100) % 256) as u8,
        ((v / 0x1_0000) % 256) as u8,
        ((v / 0x100_0000) % 256) as u8,
    ]
}

/// The words of `ws`, each in little-endian order, one after the other.
pub open spec fn le_words(ws: Seq<i32>) -> Seq<u8>
    decreases ws.len(),
{
    if ws.len() == 0 {
        seq![]
    } else {
        le_words(ws.drop_last()) + le_bytes(ws.last())
    }
}

/// A storage buffer holding the runtime-sized array `ws`: its words in order,
/// and one zero word where the array is empty.
pub open spec fn storage_words(ws: Seq<i32>) -> Seq<u8> {
    if ws.len() == 0 {
        seq![0u8, 0u8, 0u8, 0u8]
    } else {
        le_words(ws)
    }
}

/// Relies on encase's `StorageBuffer::write` for a `Vec<i32>` into an empty
/// `Vec<u8>`: the buffer is grown (zero-filled) to four bytes per element, at
/// least four, and each element is written with `i32::to_le_bytes` in order.
/// It fails only when the buffer cannot be grown; the size computation
/// panics on a length whose byte count overflows a `u64`, which `requires`
/// leaves out.
#[verifier::external_body]
fn write_words(words: &Vec<i32>) -> (r: Result<Vec<u8>, encase::internal::Error>)
    requires
        4 * words.len() <= u64::MAX,
    ensures
        r matches Ok(bytes) ==> bytes@ == storage_words(words@),
{
    let mut bytes: Vec<u8> = Vec::new();
    let mut buffer = encase::StorageBuffer::new(&mut bytes);
    let written = buffer.write(words);
    written.map(|_| bytes)
}

/// The cell index table as the bytes of a storage buffer.
pub fn encode_cell_table(indices: &Vec<i32>) -> (r: Result<Vec<u8>, EncodeError>)
    requires
        4 * indices.len() <= u64::MAX,
    ensures
        r matches Ok(bytes) ==> bytes@ == storage_words(indices@),
        r matches Err(e) ==> e == EncodeError::BufferTooSmall,
{
    match write_words(indices) {
        Ok(bytes) => Ok(bytes),
        Err(_) => Err(EncodeError::BufferTooSmall),
    }
}

/// The ten words of a unit in buffer order: previous, current and velocity
/// as `x, y` pairs, then `hash_id`, `attack_id`, `id`, `health`.
pub open spec fn unit_words(u: Unit) -> Seq<i32> {
    seq![
        u.previous_state.x,
        u.previous_state.y,
        u.current_state.x,
        u.current_state.y,
        u.velocity.x,
        u.velocity.y,
        u.hash_id,
        u.attack_id,
        u.id,
        u.health,
    ]
}

/// The words of all units, one unit after the other.
pub open spec fn store_words(s: Seq<Unit>) -> Seq<i32>
    decreases s.len(),
{
    if s.len() == 0 {
        seq![]
    } else {
        store_words(s.drop_last()) + unit_words(s.last())
    }
}

/// The unit store as the bytes of a storage buffer.
pub fn encode_units(units: &Vec<Unit>) -> (r: Result<Vec<u8>, EncodeError>)
    requires
        40 * units.len() <= u64::MAX,
    ensures
        r matches Ok(bytes) ==> bytes@ == storage_words(store_words(units@)),
        r matches Err(e) ==> e == EncodeError::BufferTooSmall,
{
    let mut words: Vec<i32> = Vec::new();
    let mut i: usize = 0;
    while i < units.len()
        invariant
            i <= units.len(),
            40 * units.len() <= u64::MAX,
            words@ == store_words(units@.take(i as int)),
            words@.len() == 10 * i,
        decreases units.len() - i,
    {
        let u = units[i];
        words.push(u.previous_state.x);
        words.push(u.previous_state.y);
        words.push(u.current_state.x);
        words.push(u.current_state.y);
        words.push(u.velocity.x);
        words.push(u.velocity.y);
        words.push(u.hash_id);
        words.push(u.attack_id);
        words.push(u.id);
        words.push(u.health);
        proof {
            let t = units@.take(i + 1);
            assert(words@.len() == 10 * (i + 1));
            assert(t.drop_last() =~= units@.take(i as int));
            assert(words@ =~= store_words(t));
        }
        i = i + 1;
    }
    assert(units@.take(i as int) =~= units@);
    match write_words(&words) {
        Ok(bytes) => Ok(bytes),
        Err(_) => Err(EncodeError::BufferTooSmall),
    }
}

/// The words of a uniform block in buffer order.
pub open spec fn uniform_words(u: UniformData) -> Seq<i32> {
    seq![
        u.dimensions.x,
        u.dimensions.y,
        u.world.x,
        u.world.y,
        u.unit_count,
        u.logical_count,
        u.level,
        u.step,
        u.grid_size,
        u.grid_width,
        u.grid_height,
        u.camera_zoom,
        u.camera_position.x,
        u.camera_position.y,
        u.alpha,
    ]
}

/// The uniform block as the bytes of a buffer.
pub fn encode_uniforms(u: &UniformData) -> (r: Result<Vec<u8>, EncodeError>)
    ensures
        r matches Ok(bytes) ==> bytes@ == storage_words(uniform_words(*u)),
        r matches Err(e) ==> e == EncodeError::BufferTooSmall,
{
    let words = vec![
        u.dimensions.x,
        u.dimensions.y,
        u.world.x,
        u.world.y,
        u.unit_count,
        u.logical_count,
        u.level,
        u.step,
        u.grid_size,
        u.grid_width,
        u.grid_height,
        u.camera_zoom,
        u.camera_position.x,
        u.camera_position.y,
        u.alpha,
    ];
    assert(words@ =~= uniform_words(*u));
    match write_words(&words) {
        Ok(bytes) => Ok(bytes),
        Err(_) => Err(EncodeError::BufferTooSmall),
    }
}

} // verus!
