//! The per-option capability and state store: for each of the 256 option
//! codes, whether the option is supported locally and remotely, and whether
//! it is currently enabled locally and remotely. An entry is packed into a
//! four-bit mask for storage and expanded for the negotiation logic.

use vstd::prelude::*;

verus! {

/// An expansion of one bitmask held in `CompatibilityTable`.
#[derive(Clone, Copy, Debug, PartialEq, Eq, Structural)]
pub struct CompatibilityEntry {
    /// Whether we support this option from us to them.
    pub local: bool,
    /// Whether we support this option from them to us.
    pub remote: bool,
    /// Whether this option is currently enabled locally.
    pub local_state: bool,
    /// Whether this option is currently enabled remotely.
    pub remote_state: bool,
}

/// The packed form of an entry: bit 0 holds `local`, bit 1 `remote`,
/// bit 2 `local_state`, bit 3 `remote_state`.
pub open spec fn entry_mask(e: CompatibilityEntry) -> u8 {
    (if e.local {
        1u8
    } else {
        0u8
    }) | (if e.remote {
        2u8
    } else {
        0u8
    }) | (if e.local_state {
        4u8
    } else {
        0u8
    }) | (if e.remote_state {
        8u8
    } else {
        0u8
    })
}

/// The expansion of a packed mask back into its four flags.
pub open spec fn mask_entry(value: u8) -> CompatibilityEntry {
    CompatibilityEntry {
        local: value & 1 == 1,
        remote: value & 2 == 2,
        local_state: value & 4 == 4,
        remote_state: value & 8 == 8,
    }
}

/// Expanding a packed entry returns the flags that were packed.
pub proof fn lemma_mask_entry_roundtrip(e: CompatibilityEntry)
    ensures
        mask_entry(entry_mask(e)) == e,
{
    let a: u8 = if e.local {
        1u8
    } else {
        0u8
    };
    let b: u8 = if e.remote {
        2u8
    } else {
        0u8
    };
    let c: u8 = if e.local_state {
        4u8
    } else {
        0u8
    };
    let d: u8 = if e.remote_state {
        8u8
    } else {
        0u8
    };
    assert((((a | b | c | d) & 1 == 1) == (a == 1)) && (((a | b | c | d) & 2 == 2) == (b == 2))
        && (((a | b | c | d) & 4 == 4) == (c == 4)) && (((a | b | c | d) & 8 == 8) == (d == 8)))
        by (bit_vector)
        requires
            (a == 0 || a == 1) && (b == 0 || b == 2) && (c == 0 || c == 4) && (d == 0 || d == 8),
    ;
}

impl CompatibilityEntry {
    pub fn new(local: bool, remote: bool, local_state: bool, remote_state: bool) -> (r: Self)
        ensures
            r == (CompatibilityEntry { local, remote, local_state, remote_state }),
    {
        Self { local, remote, local_state, remote_state }
    }

    /// Creates the u8 bitmask of this entry.
    pub fn into_u8(self) -> (r: u8)
        ensures
            r == entry_mask(self),
    {
        let local_bit: u8 = if self.local {
            CompatibilityTable::ENABLED_LOCAL
        } else {
            0
        };
        let remote_bit: u8 = if self.remote {
            CompatibilityTable::ENABLED_REMOTE
        } else {
            0
        };
        let local_state_bit: u8 = if self.local_state {
            CompatibilityTable::LOCAL_STATE
        } else {
            0
        };
        let remote_state_bit: u8 = if self.remote_state {
            CompatibilityTable::REMOTE_STATE
        } else {
            0
        };
        local_bit | remote_bit | local_state_bit | remote_state_bit
    }

    /// Expands a u8 bitmask into a CompatibilityEntry.
    pub fn from(value: u8) -> (r: Self)
        ensures
            r == mask_entry(value),
    {
        Self {
            local: value & CompatibilityTable::ENABLED_LOCAL == CompatibilityTable::ENABLED_LOCAL,
            remote: value & CompatibilityTable::ENABLED_REMOTE
                == CompatibilityTable::ENABLED_REMOTE,
            local_state: value & CompatibilityTable::LOCAL_STATE == CompatibilityTable::LOCAL_STATE,
            remote_state: value & CompatibilityTable::REMOTE_STATE
                == CompatibilityTable::REMOTE_STATE,
        }
    }
}

/// A table of options that are supported locally or remotely, and their
/// current state: one packed mask for each of the 256 option codes.
///
/// Its view is the sequence of the 256 packed masks, indexed by option code.
pub struct CompatibilityTable {
    options: Vec<u8>,
}

impl View for CompatibilityTable {
    type V = Seq<u8>;

    closed spec fn view(&self) -> Seq<u8> {
        self.options@
    }
}

impl CompatibilityTable {
    /// The table always holds one mask per option code.
    #[verifier::type_invariant]
    pub closed spec fn wf(self) -> bool {
        self.options@.len() == 256
    }
}

/// The table a list of `(option, mask)` pairs describes: all-zero masks,
/// overwritten pair by pair, so that the last write for an option wins.
pub open spec fn from_options_spec(values: Seq<(u8, u8)>) -> Seq<u8>
    decreases values.len(),
{
    if values.len() == 0 {
        Seq::new(256, |i: int| 0u8)
    } else {
        from_options_spec(values.drop_last()).update(
            values.last().0 as int,
            values.last().1,
        )
    }
}

/// The mask after local support is switched on: the stored mask expanded,
/// `local` set, and the entry packed again.
pub open spec fn support_local_mask(m: u8) -> u8 {
    entry_mask(CompatibilityEntry { local: true, ..mask_entry(m) })
}

/// The mask after remote support is switched on.
pub open spec fn support_remote_mask(m: u8) -> u8 {
    entry_mask(CompatibilityEntry { remote: true, ..mask_entry(m) })
}

/// The mask after both supports are switched on.
pub open spec fn support_both_mask(m: u8) -> u8 {
    entry_mask(CompatibilityEntry { local: true, remote: true, ..mask_entry(m) })
}

/// The table after `support_local(option)`.
pub open spec fn support_local_spec(t: Seq<u8>, option: u8) -> Seq<u8> {
    t.update(option as int, support_local_mask(t[option as int]))
}

/// Law: switching local support on twice leaves the table exactly as
/// switching it on once does.
pub proof fn lemma_support_local_idempotent(t: Seq<u8>, option: u8)
    requires
        t.len() == 256,
    ensures
        support_local_spec(support_local_spec(t, option), option) == support_local_spec(t, option),
{
    let m = t[option as int];
    let e1 = CompatibilityEntry { local: true, ..mask_entry(m) };
    lemma_mask_entry_roundtrip(e1);
    assert(support_local_mask(support_local_mask(m)) == support_local_mask(m));
    assert(support_local_spec(support_local_spec(t, option), option) =~= support_local_spec(
        t,
        option,
    ));
}

impl Default for CompatibilityTable {
    fn default() -> (r: Self)
        ensures
            r@ == Seq::new(256, |i: int| 0u8),
    {
        let options: Vec<u8> = vec![0u8; 256];
        assert(options@ =~= Seq::new(256, |i: int| 0u8));
        Self { options }
    }
}

impl CompatibilityTable {
    /// Option is locally supported.
    pub const ENABLED_LOCAL: u8 = 1;

    /// Option is remotely supported.
    pub const ENABLED_REMOTE: u8 = 2;

    /// Option is currently enabled locally.
    pub const LOCAL_STATE: u8 = 4;

    /// Option is currently enabled remotely.
    pub const REMOTE_STATE: u8 = 8;

    /// An all-default table: every option unsupported and disabled.
    pub fn new() -> (r: Self)
        ensures
            r@ == Seq::new(256, |i: int| 0u8),
    {
        Self::default()
    }

    /// Create a table with some option values set.
    ///
    /// `values` holds `(option code, packed mask)` pairs; a mask can be made
    /// with `CompatibilityEntry::into_u8`. A later pair for the same option
    /// overwrites an earlier one; untouched options stay all-false.
    pub fn from_options(values: &[(u8, u8)]) -> (r: Self)
        ensures
            r@ == from_options_spec(values@),
    {
        let mut table = Self::new();
        let mut j: usize = 0;
        while j < values.len()
            invariant
                j <= values@.len(),
                table@ == from_options_spec(values@.take(j as int)),
                table@.len() == 256,
            decreases values@.len() - j,
        {
            let (opt, val) = values[j];
            table.options[opt as usize] = val;
            proof {
                assert(values@.take(j + 1 as int).drop_last() =~= values@.take(j as int));
                assert(values@.take(j + 1 as int).last() == values@[j as int]);
            }
            j += 1;
        }
        proof {
            assert(values@.take(values@.len() as int) =~= values@);
        }
        table
    }

    /// Enable local support for an option.
    pub fn support_local(&mut self, option: u8)
        ensures
            final(self)@ == support_local_spec(old(self)@, option),
    {
        let mut opt = self.get_option(option);
        opt.local = true;
        self.set_option(option, opt);
    }

    /// Enable remote support for an option.
    pub fn support_remote(&mut self, option: u8)
        ensures
            final(self)@ == old(self)@.update(
                option as int,
                support_remote_mask(old(self)@[option as int]),
            ),
    {
        let mut opt = self.get_option(option);
        opt.remote = true;
        self.set_option(option, opt);
    }

    /// Enable both local and remote support for an option.
    pub fn support(&mut self, option: u8)
        ensures
            final(self)@ == old(self)@.update(
                option as int,
                support_both_mask(old(self)@[option as int]),
            ),
    {
        let mut opt = self.get_option(option);
        opt.local = true;
        opt.remote = true;
        self.set_option(option, opt);
    }

    /// The `CompatibilityEntry` expanded from the current mask of an option.
    pub fn get_option(&self, option: u8) -> (r: CompatibilityEntry)
        ensures
            r == mask_entry(self@[option as int]),
    {
        proof {
            use_type_invariant(self);
        }
        CompatibilityEntry::from(self.options[option as usize])
    }

    /// Store an option's entry, packed back into its mask.
    pub fn set_option(&mut self, option: u8, entry: CompatibilityEntry)
        ensures
            final(self)@ == old(self)@.update(option as int, entry_mask(entry)),
    {
        proof {
            use_type_invariant(&*self);
        }
        let mask = entry.into_u8();
        self.options[option as usize] = mask;
    }
}

} // verus!
