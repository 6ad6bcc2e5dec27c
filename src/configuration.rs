use vstd::prelude::*;

verus! {

/// Largest capacity (expected number of distinct entries) a filter accepts.
pub const MAXIMUM_CAPACITY_ALLOWED: usize = 10_000_000;

/// Bit lengths from this value on are refused (512 GiB expressed in bits).
pub const MAXIMUM_BITS_ALLOWED_IN_STORAGE: u64 = 512 * 1024 * 1024 * 1024;

/// Capacity of a filter when none is given.
pub const DEFAULT_MAX_SIZE: usize = 1_000_000;

/// Bit pattern of the single-precision float 0.01, the tolerance of a filter
/// when none is given.
pub const DEFAULT_MAX_TOLERANCE_BITS: u32 = 0x3C23_D70A;

/// Bit pattern of the single-precision float 1.0.
pub const ONE_BITS: u32 = 0x3F80_0000;

/// A tolerance, given as the IEEE-754 single-precision bit pattern of the
/// probability `p`, is valid when `0 < p < 1`. Positive floats order as their
/// bit patterns do, and negative values, `-0.0` and NaN fall outside this range.
pub open spec fn valid_tolerance(bits: u32) -> bool {
    0 < bits < ONE_BITS
}

/// Why a configuration was refused.
#[derive(Debug)]
pub enum ConfigError {
    /// The tolerance lies outside `(0, 1)`.
    Validation(String),
    /// The capacity lies outside `[1, 10_000_000]`, or the bit length reaches
    /// the storage limit.
    Dependency(String),
}

/// Expected capacity of a filter and the count of distinct entries seen.
pub struct Capacity {
    expected_capacity: usize,
    actual_size: usize,
}

impl Capacity {
    pub closed spec fn capacity(&self) -> nat {
        self.expected_capacity as nat
    }

    pub closed spec fn size(&self) -> nat {
        self.actual_size as nat
    }

    /// Accepts `1 <= value <= MAXIMUM_CAPACITY_ALLOWED`, with a size of zero.
    pub fn try_from(value: usize) -> (r: Result<Capacity, &'static str>)
        ensures
            r is Ok <==> 1 <= value <= MAXIMUM_CAPACITY_ALLOWED,
            r matches Ok(c) ==> c.capacity() == value && c.size() == 0,
    {
        if value > MAXIMUM_CAPACITY_ALLOWED {
            return Err("Not enough capacity for storage");
        }
        if value == 0 {
            return Err("Storage cannot have capacity of 0");
        }
        Ok(Capacity { expected_capacity: value, actual_size: 0 })
    }

    pub fn get_capacity(&self) -> (r: usize)
        ensures
            r == self.capacity(),
    {
        self.expected_capacity
    }

    pub fn get_actual_size(&self) -> (r: usize)
        ensures
            r == self.size(),
    {
        self.actual_size
    }

    pub fn increase_size_by_one(&mut self)
        requires
            old(self).size() < usize::MAX,
        ensures
            final(self).size() == old(self).size() + 1,
            final(self).capacity() == old(self).capacity(),
    {
        self.actual_size = self.actual_size + 1;
    }
}

/// A false-positive tolerance `p` with `0 < p < 1`, held as the bit pattern
/// of its single-precision float.
pub struct Tolerance(u32);

impl Tolerance {
    #[verifier::type_invariant]
    spec fn inv(&self) -> bool {
        valid_tolerance(self.0)
    }

    pub closed spec fn bits(&self) -> u32 {
        self.0
    }

    /// Accepts exactly the bit patterns of floats strictly between 0 and 1.
    pub fn try_from(bits: u32) -> (r: Result<Tolerance, &'static str>)
        ensures
            r is Ok <==> valid_tolerance(bits),
            r matches Ok(t) ==> t.bits() == bits,
    {
        if bits == 0 || bits >= ONE_BITS {
            return Err("Tolerance must be within 0.0 and 1.0");
        }
        Ok(Tolerance(bits))
    }

    pub fn get_maximum_tolerance(&self) -> (r: u32)
        ensures
            r == self.bits(),
            valid_tolerance(r),
    {
        proof {
            use_type_invariant(self);
        }
        self.0
    }
}

/// The number of bits a filter uses, below the storage limit.
pub struct StorageBits(usize);

impl StorageBits {
    pub closed spec fn total_bits(&self) -> nat {
        self.0 as nat
    }

    /// Accepts a bit length below `MAXIMUM_BITS_ALLOWED_IN_STORAGE`.
    pub fn try_from(total_bits: usize) -> (r: Result<StorageBits, &'static str>)
        ensures
            r is Ok <==> total_bits < MAXIMUM_BITS_ALLOWED_IN_STORAGE,
            r matches Ok(s) ==> s.total_bits() == total_bits,
    {
        if total_bits as u64 >= MAXIMUM_BITS_ALLOWED_IN_STORAGE {
            return Err("Too many bits needed for such tolerance and capacity. Overflow occurred");
        }
        Ok(StorageBits(total_bits))
    }

    pub fn get(&self) -> (r: usize)
        ensures
            r == self.total_bits(),
    {
        self.0
    }
}

/// A validated capacity, tolerance and bit length, with the count of
/// distinct entries inserted so far.
pub struct Configuration {
    tolerance: Tolerance,
    capacity: Capacity,
    storage_bits: StorageBits,
}

/// Which error, if any, a configuration of these values meets: capacity is
/// checked first, then tolerance, then the bit length.
pub open spec fn configuration_outcome(max_tolerance: u32, max_size: usize, total_bits: usize) -> Option<ConfigError> {
    if !(1 <= max_size <= MAXIMUM_CAPACITY_ALLOWED) {
        Some(ConfigError::Dependency(arbitrary()))
    } else if !valid_tolerance(max_tolerance) {
        Some(ConfigError::Validation(arbitrary()))
    } else if total_bits >= MAXIMUM_BITS_ALLOWED_IN_STORAGE {
        Some(ConfigError::Dependency(arbitrary()))
    } else {
        None
    }
}

impl Configuration {
    pub closed spec fn tolerance(&self) -> u32 {
        self.tolerance.bits()
    }

    pub closed spec fn capacity(&self) -> nat {
        self.capacity.capacity()
    }

    pub closed spec fn total_bits(&self) -> nat {
        self.storage_bits.total_bits()
    }

    pub closed spec fn unique_entries(&self) -> nat {
        self.capacity.size()
    }

    pub closed spec fn wf(&self) -> bool {
        &&& valid_tolerance(self.tolerance())
        &&& 1 <= self.capacity() <= MAXIMUM_CAPACITY_ALLOWED
        &&& self.total_bits() < MAXIMUM_BITS_ALLOWED_IN_STORAGE
    }

    /// Validates capacity, then tolerance, then the bit length derived from
    /// them; the count of distinct entries starts at zero.
    pub fn try_from(max_tolerance: u32, max_size: usize, total_bits: usize) -> (r: Result<
        Configuration,
        ConfigError,
    >)
        ensures
            r is Ok <==> configuration_outcome(max_tolerance, max_size, total_bits) is None,
            r matches Err(ConfigError::Dependency(_)) ==> configuration_outcome(
                max_tolerance,
                max_size,
                total_bits,
            ) matches Some(ConfigError::Dependency(_)),
            r matches Err(ConfigError::Validation(_)) ==> configuration_outcome(
                max_tolerance,
                max_size,
                total_bits,
            ) matches Some(ConfigError::Validation(_)),
            r matches Ok(c) ==> {
                &&& c.wf()
                &&& c.tolerance() == max_tolerance
                &&& c.capacity() == max_size
                &&& c.total_bits() == total_bits
                &&& c.unique_entries() == 0
            },
    {
        let capacity = match Capacity::try_from(max_size) {
            Ok(c) => c,
            Err(message) => return Err(ConfigError::Dependency(message.to_owned())),
        };
        let tolerance = match Tolerance::try_from(max_tolerance) {
            Ok(t) => t,
            Err(message) => return Err(ConfigError::Validation(message.to_owned())),
        };
        let storage_bits = match StorageBits::try_from(total_bits) {
            Ok(s) => s,
            Err(message) => return Err(ConfigError::Dependency(message.to_owned())),
        };
        Ok(Configuration { tolerance, capacity, storage_bits })
    }

    pub fn increase_unique_entry_count(&mut self)
        requires
            old(self).unique_entries() < usize::MAX,
        ensures
            final(self).unique_entries() == old(self).unique_entries() + 1,
            final(self).tolerance() == old(self).tolerance(),
            final(self).capacity() == old(self).capacity(),
            final(self).total_bits() == old(self).total_bits(),
            old(self).wf() ==> final(self).wf(),
    {
        self.capacity.increase_size_by_one()
    }

    pub fn get_max_tolerance(&self) -> (r: u32)
        ensures
            r == self.tolerance(),
    {
        self.tolerance.get_maximum_tolerance()
    }

    pub fn get_total_bits(&self) -> (r: usize)
        ensures
            r == self.total_bits(),
    {
        self.storage_bits.get()
    }

    pub fn get_tolerance(&self) -> (r: &Tolerance)
        ensures
            r.bits() == self.tolerance(),
    {
        &self.tolerance
    }

    pub fn get_unique_entry_count(&self) -> (r: usize)
        ensures
            r == self.unique_entries(),
    {
        self.capacity.get_actual_size()
    }
}

} // verus!
