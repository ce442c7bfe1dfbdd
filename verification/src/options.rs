//! Engine options, laid out for C.
//!
//! # Unset is not zero
//!
//! Three of the exposed fields treat `0` as a meaningful setting rather
//! than as "no opinion":
//!
//! * `max_background_compactions = 0` runs compaction on the calling
//!   thread instead of on a worker,
//! * `block_cache_size = 0` disables the block cache entirely,
//! * `transaction_keys_inline = 0` never indexes a transaction's buffer.
//!
//! So a zero-means-default scheme would make those three unreachable. A
//! single `present` bitmask carries which fields the caller actually set
//! instead: a field is read only when its bit is set, and a zeroed struct
//! therefore means "engine defaults, every field".
//!
//! # Validation
//!
//! Only the things the engine cannot see are checked here: an unknown enum
//! discriminant, and a `u64` that does not fit a `usize` on a 32-bit host.
//! Value ranges are the engine's own business, which refuses them at open.

use vstd::prelude::*;
use vstd::string::*;

use crate::failure;
use crate::failure::Failure;
use crate::text;
use crate::text::{decimal_text, hex_text};

verus! {

/// `write_buffer_size` is set.
pub const OPT_WRITE_BUFFER_SIZE: u64 = 0x01;

/// `block_cache_size` is set.
pub const OPT_BLOCK_CACHE_SIZE: u64 = 0x02;

/// `max_background_compactions` is set.
pub const OPT_MAX_BACKGROUND_COMPACTIONS: u64 = 0x04;

/// `transaction_keys_inline` is set.
pub const OPT_TRANSACTION_KEYS_INLINE: u64 = 0x08;

/// `compression` is set.
pub const OPT_COMPRESSION: u64 = 0x10;

/// `durability` is set.
pub const OPT_DURABILITY: u64 = 0x20;

/// `isolation` is set.
pub const OPT_ISOLATION: u64 = 0x40;

/// Every bit this version understands. An unknown bit is rejected, so a
/// caller built against a newer header cannot silently get a default.
pub const OPT_KNOWN: u64 = 0x7f;

/// No block compression.
pub const COMPRESSION_NONE: u32 = 0;

/// Snappy block compression.
pub const COMPRESSION_SNAPPY: u32 = 1;

/// LZ4 block compression (the engine's default).
pub const COMPRESSION_LZ4: u32 = 2;

/// Flush to disk on every write.
pub const DURABILITY_IMMEDIATE: u32 = 0;

/// Let the OS flush eventually (the engine's default).
pub const DURABILITY_EVENTUAL: u32 = 1;

/// Validate only what the transaction wrote.
pub const ISOLATION_READ_COMMITTED: u32 = 0;

/// Validate writes and keys read for update (the engine's default).
pub const ISOLATION_SNAPSHOT: u32 = 1;

/// Validate the transaction's entire read set.
pub const ISOLATION_SERIALIZABLE: u32 = 2;

/// Validate every key a point read returned; record a scan per stretch,
/// not per key.
pub const ISOLATION_REPEATABLE_READ: u32 = 3;

/// Engine options as a caller hands them over. A field is read only when
/// its bit is set in `present`; see the module docs.
pub struct RegolithOptions {
    /// Bitwise OR of the `OPT_*` presence bits for the fields set below.
    pub present: u64,
    /// Memtable bytes before a flush. Engine default: 64 MB.
    pub write_buffer_size: u64,
    /// Block cache bytes; `0` disables it. Engine default: 512 MB.
    pub block_cache_size: u64,
    /// Background compaction threads; `0` compacts on the calling
    /// thread. Engine default: 1.
    pub max_background_compactions: u64,
    /// Keys a transaction buffers before indexing them; `0` never
    /// indexes. Engine default: 32.
    pub transaction_keys_inline: u64,
    /// One of the `COMPRESSION_*` constants. Engine default: LZ4.
    pub compression: u32,
    /// One of the `DURABILITY_*` constants. Engine default: Eventual.
    pub durability: u32,
    /// One of the `ISOLATION_*` constants, used by every transaction the
    /// store begins. Engine default: snapshot isolation.
    pub isolation: u32,
}

/// Block compression codec.
#[derive(Debug, Clone, Copy, PartialEq, Eq, Structural)]
pub enum CompressionType {
    Uncompressed,
    Snappy,
    Lz4,
}

/// When data is flushed to disk after a write.
#[derive(Debug, Clone, Copy, PartialEq, Eq, Structural)]
pub enum DurabilityMode {
    Immediate,
    Eventual,
}

/// What a transaction's commit validates.
#[derive(Debug, Clone, Copy, PartialEq, Eq, Structural)]
pub enum IsolationLevel {
    ReadCommitted,
    SnapshotIsolation,
    RepeatableRead,
    Serializable,
}

/// The engine options that a caller can set; every other engine option
/// keeps its default.
#[derive(Debug, Clone, Copy, PartialEq, Eq, Structural)]
pub struct EngineOptions {
    pub write_buffer_size: usize,
    pub block_cache_size: usize,
    pub max_background_compactions: usize,
    pub transaction_keys_inline: usize,
    pub compression: CompressionType,
    pub durability: DurabilityMode,
}

/// What a caller's options resolve into: the engine's own options, plus
/// the isolation level that the store hands to each transaction.
#[derive(Debug, Clone, Copy, PartialEq, Eq, Structural)]
pub struct ResolvedOptions {
    pub engine: EngineOptions,
    pub isolation: IsolationLevel,
}

// ---------------------------------------------------------------------
// What options resolve into.
// ---------------------------------------------------------------------

/// The engine's defaults, where it runs `compactions` background
/// compaction threads unless told otherwise.
pub open spec fn engine_defaults(compactions: usize) -> EngineOptions {
    EngineOptions {
        write_buffer_size: 0x400_0000,
        block_cache_size: 0x2000_0000,
        max_background_compactions: compactions,
        transaction_keys_inline: 32,
        compression: CompressionType::Lz4,
        durability: DurabilityMode::Eventual,
    }
}

/// [`engine_defaults`], at the engine's default isolation level.
pub open spec fn defaults(compactions: usize) -> ResolvedOptions {
    ResolvedOptions {
        engine: engine_defaults(compactions),
        isolation: IsolationLevel::SnapshotIsolation,
    }
}

/// Is the presence bit `bit` set in `opts`?
pub open spec fn is_set(opts: RegolithOptions, bit: u64) -> bool {
    opts.present & bit != 0
}

/// The refusal of a number that does not fit in a `usize`.
pub open spec fn too_wide(name: Seq<char>, value: u64) -> failure::FailureView {
    failure::invalid(
        "invalid option `"@ + name + "`: "@ + text::decimal(value as nat)
            + " does not fit in a usize on this platform"@,
    )
}

/// The codec of a `COMPRESSION_*` constant.
pub open spec fn codec(compression: u32) -> Option<CompressionType> {
    if compression == COMPRESSION_NONE {
        Some(CompressionType::Uncompressed)
    } else if compression == COMPRESSION_SNAPPY {
        Some(CompressionType::Snappy)
    } else if compression == COMPRESSION_LZ4 {
        Some(CompressionType::Lz4)
    } else {
        None
    }
}

/// The mode of a `DURABILITY_*` constant.
pub open spec fn mode(durability: u32) -> Option<DurabilityMode> {
    if durability == DURABILITY_IMMEDIATE {
        Some(DurabilityMode::Immediate)
    } else if durability == DURABILITY_EVENTUAL {
        Some(DurabilityMode::Eventual)
    } else {
        None
    }
}

/// The level of an `ISOLATION_*` constant.
pub open spec fn level(isolation: u32) -> Option<IsolationLevel> {
    if isolation == ISOLATION_READ_COMMITTED {
        Some(IsolationLevel::ReadCommitted)
    } else if isolation == ISOLATION_SNAPSHOT {
        Some(IsolationLevel::SnapshotIsolation)
    } else if isolation == ISOLATION_SERIALIZABLE {
        Some(IsolationLevel::Serializable)
    } else if isolation == ISOLATION_REPEATABLE_READ {
        Some(IsolationLevel::RepeatableRead)
    } else {
        None
    }
}

/// The setting that `given` stands for where `bit` is present in `opts`,
/// `default` where it is not.
pub open spec fn picked<T>(opts: RegolithOptions, bit: u64, given: T, default: T) -> T {
    if is_set(opts, bit) {
        given
    } else {
        default
    }
}

/// What `opts` make of `base`: the first thing that is wrong with them, or
/// `base` with the fields that are present replaced.
pub open spec fn resolved(base: ResolvedOptions, opts: RegolithOptions) -> Result<
    ResolvedOptions,
    failure::FailureView,
> {
    let unknown = opts.present & !OPT_KNOWN;
    if unknown != 0 {
        Err(
            failure::invalid(
                "invalid option `present`: unknown presence bits "@ + text::hex(unknown as nat),
            ),
        )
    } else if is_set(opts, OPT_WRITE_BUFFER_SIZE) && opts.write_buffer_size > usize::MAX {
        Err(too_wide("write_buffer_size"@, opts.write_buffer_size))
    } else if is_set(opts, OPT_BLOCK_CACHE_SIZE) && opts.block_cache_size > usize::MAX {
        Err(too_wide("block_cache_size"@, opts.block_cache_size))
    } else if is_set(opts, OPT_MAX_BACKGROUND_COMPACTIONS) && opts.max_background_compactions
        > usize::MAX {
        Err(too_wide("max_background_compactions"@, opts.max_background_compactions))
    } else if is_set(opts, OPT_TRANSACTION_KEYS_INLINE) && opts.transaction_keys_inline > usize::MAX {
        Err(too_wide("transaction_keys_inline"@, opts.transaction_keys_inline))
    } else if is_set(opts, OPT_COMPRESSION) && codec(opts.compression) is None {
        Err(
            failure::invalid(
                "invalid option `compression`: unknown codec "@ + text::decimal(
                    opts.compression as nat,
                ),
            ),
        )
    } else if is_set(opts, OPT_DURABILITY) && mode(opts.durability) is None {
        Err(
            failure::invalid(
                "invalid option `durability`: unknown mode "@ + text::decimal(
                    opts.durability as nat,
                ),
            ),
        )
    } else if is_set(opts, OPT_ISOLATION) && level(opts.isolation) is None {
        Err(
            failure::invalid(
                "invalid option `isolation`: unknown level "@ + text::decimal(
                    opts.isolation as nat,
                ),
            ),
        )
    } else {
        Ok(
            ResolvedOptions {
                engine: EngineOptions {
                    write_buffer_size: picked(
                        opts,
                        OPT_WRITE_BUFFER_SIZE,
                        opts.write_buffer_size as usize,
                        base.engine.write_buffer_size,
                    ),
                    block_cache_size: picked(
                        opts,
                        OPT_BLOCK_CACHE_SIZE,
                        opts.block_cache_size as usize,
                        base.engine.block_cache_size,
                    ),
                    max_background_compactions: picked(
                        opts,
                        OPT_MAX_BACKGROUND_COMPACTIONS,
                        opts.max_background_compactions as usize,
                        base.engine.max_background_compactions,
                    ),
                    transaction_keys_inline: picked(
                        opts,
                        OPT_TRANSACTION_KEYS_INLINE,
                        opts.transaction_keys_inline as usize,
                        base.engine.transaction_keys_inline,
                    ),
                    compression: picked(
                        opts,
                        OPT_COMPRESSION,
                        codec(opts.compression)->Some_0,
                        base.engine.compression,
                    ),
                    durability: picked(
                        opts,
                        OPT_DURABILITY,
                        mode(opts.durability)->Some_0,
                        base.engine.durability,
                    ),
                },
                isolation: picked(
                    opts,
                    OPT_ISOLATION,
                    level(opts.isolation)->Some_0,
                    base.isolation,
                ),
            },
        )
    }
}

// ---------------------------------------------------------------------
// Resolving options.
// ---------------------------------------------------------------------

/// `regolith::Options::default`, of which the library keeps the fields
/// that a caller can set. The engine compacts on one background thread by
/// default, and on none where the target has no threads.
#[verifier::external_body]
fn default_engine_options() -> (options: EngineOptions)
    ensures
        options == engine_defaults(0) || options == engine_defaults(1),
{
    let options = regolith::Options::default();
    EngineOptions {
        write_buffer_size: options.write_buffer_size, block_cache_size: options.block_cache_size,
        max_background_compactions: options.max_background_compactions,
        transaction_keys_inline: options.transaction_keys_inline,
        compression: match options.compression {
            regolith::CompressionType::None => CompressionType::Uncompressed,
            regolith::CompressionType::Snappy => CompressionType::Snappy,
            regolith::CompressionType::Lz4 => CompressionType::Lz4,
        },
        durability: match options.durability {
            regolith::DurabilityMode::Immediate => DurabilityMode::Immediate,
            regolith::DurabilityMode::Eventual => DurabilityMode::Eventual,
        },
    }
}

/// `regolith::IsolationLevel::default` is snapshot isolation.
#[verifier::external_body]
fn default_isolation() -> (isolation: IsolationLevel)
    ensures
        isolation == IsolationLevel::SnapshotIsolation,
{
    match regolith::IsolationLevel::default() {
        regolith::IsolationLevel::ReadCommitted => IsolationLevel::ReadCommitted,
        regolith::IsolationLevel::SnapshotIsolation => IsolationLevel::SnapshotIsolation,
        regolith::IsolationLevel::RepeatableRead => IsolationLevel::RepeatableRead,
        regolith::IsolationLevel::Serializable => IsolationLevel::Serializable,
    }
}

impl Default for ResolvedOptions {
    /// The engine's defaults.
    fn default() -> (options: ResolvedOptions)
        ensures
            options == defaults(0) || options == defaults(1),
    {
        ResolvedOptions { engine: default_engine_options(), isolation: default_isolation() }
    }
}

/// Narrow a C `u64` to a `usize`, naming the field if it does not fit.
///
/// Only fallible on a 32-bit host; there it is the difference between a
/// clear rejection and a silently truncated budget.
pub fn as_usize(name: &str, value: u64) -> (outcome: Result<usize, Failure>)
    ensures
        failure::said(outcome) == if value <= usize::MAX {
            Ok::<usize, failure::FailureView>(value as usize)
        } else {
            Err(too_wide(name@, value))
        },
{
    if value <= usize::MAX as u64 {
        Ok(value as usize)
    } else {
        let mut message = "invalid option `".to_owned();
        message.append(name);
        message.append("`: ");
        message.append(decimal_text(value).as_str());
        message.append(" does not fit in a usize on this platform");
        Err(Failure::invalid_arg(message.as_str()))
    }
}

/// [`failure::INVALID_ARG`] for a discriminant nothing stands for.
fn unknown_discriminant(what: &str, discriminant: u32) -> (bad: Failure)
    ensures
        bad@ == failure::invalid(what@ + text::decimal(discriminant as nat)),
{
    let mut message = what.to_owned();
    message.append(decimal_text(discriminant as u64).as_str());
    Failure::invalid_arg(message.as_str())
}

/// Replace the fields of `base` that are present in `opts`.
pub fn resolve(base: ResolvedOptions, opts: &RegolithOptions) -> (outcome: Result<
    ResolvedOptions,
    Failure,
>)
    ensures
        failure::said(outcome) == resolved(base, *opts),
{
    let mut resolved = base;
    let unknown: u64 = opts.present & !OPT_KNOWN;
    if unknown != 0 {
        let mut message = "invalid option `present`: unknown presence bits ".to_owned();
        message.append(hex_text(unknown).as_str());
        return Err(Failure::invalid_arg(message.as_str()));
    }
    if opts.present & OPT_WRITE_BUFFER_SIZE != 0 {
        match as_usize("write_buffer_size", opts.write_buffer_size) {
            Ok(size) => resolved.engine.write_buffer_size = size,
            Err(bad) => return Err(bad),
        }
    }
    if opts.present & OPT_BLOCK_CACHE_SIZE != 0 {
        match as_usize("block_cache_size", opts.block_cache_size) {
            Ok(size) => resolved.engine.block_cache_size = size,
            Err(bad) => return Err(bad),
        }
    }
    if opts.present & OPT_MAX_BACKGROUND_COMPACTIONS != 0 {
        match as_usize("max_background_compactions", opts.max_background_compactions) {
            Ok(threads) => resolved.engine.max_background_compactions = threads,
            Err(bad) => return Err(bad),
        }
    }
    if opts.present & OPT_TRANSACTION_KEYS_INLINE != 0 {
        match as_usize("transaction_keys_inline", opts.transaction_keys_inline) {
            Ok(keys) => resolved.engine.transaction_keys_inline = keys,
            Err(bad) => return Err(bad),
        }
    }
    if opts.present & OPT_COMPRESSION != 0 {
        if opts.compression == COMPRESSION_NONE {
            resolved.engine.compression = CompressionType::Uncompressed;
        } else if opts.compression == COMPRESSION_SNAPPY {
            resolved.engine.compression = CompressionType::Snappy;
        } else if opts.compression == COMPRESSION_LZ4 {
            resolved.engine.compression = CompressionType::Lz4;
        } else {
            return Err(
                unknown_discriminant(
                    "invalid option `compression`: unknown codec ",
                    opts.compression,
                ),
            );
        }
    }
    if opts.present & OPT_DURABILITY != 0 {
        if opts.durability == DURABILITY_IMMEDIATE {
            resolved.engine.durability = DurabilityMode::Immediate;
        } else if opts.durability == DURABILITY_EVENTUAL {
            resolved.engine.durability = DurabilityMode::Eventual;
        } else {
            return Err(
                unknown_discriminant(
                    "invalid option `durability`: unknown mode ",
                    opts.durability,
                ),
            );
        }
    }
    if opts.present & OPT_ISOLATION != 0 {
        if opts.isolation == ISOLATION_READ_COMMITTED {
            resolved.isolation = IsolationLevel::ReadCommitted;
        } else if opts.isolation == ISOLATION_SNAPSHOT {
            resolved.isolation = IsolationLevel::SnapshotIsolation;
        } else if opts.isolation == ISOLATION_SERIALIZABLE {
            resolved.isolation = IsolationLevel::Serializable;
        } else if opts.isolation == ISOLATION_REPEATABLE_READ {
            resolved.isolation = IsolationLevel::RepeatableRead;
        } else {
            return Err(
                unknown_discriminant("invalid option `isolation`: unknown level ", opts.isolation),
            );
        }
    }
    Ok(resolved)
}

/// Resolve caller-supplied options onto the engine's defaults. `None`, or
/// options with nothing present, yield exactly the defaults.
pub fn options_from(opts: Option<&RegolithOptions>) -> (outcome: Result<ResolvedOptions, Failure>)
    ensures
        match opts {
            None => outcome == Ok::<ResolvedOptions, Failure>(defaults(0)) || outcome == Ok::<
                ResolvedOptions,
                Failure,
            >(defaults(1)),
            Some(given) => failure::said(outcome) == resolved(defaults(0), *given)
                || failure::said(outcome) == resolved(defaults(1), *given),
        },
{
    let base = ResolvedOptions::default();
    match opts {
        None => Ok(base),
        Some(given) => resolve(base, given),
    }
}

// ---------------------------------------------------------------------
// Laws.
// ---------------------------------------------------------------------

/// Options with nothing present change nothing, whatever their other
/// fields hold.
pub proof fn law_nothing_present_means_defaults(base: ResolvedOptions, opts: RegolithOptions)
    requires
        opts.present == 0,
    ensures
        resolved(base, opts) == Ok::<ResolvedOptions, failure::FailureView>(base),
{
    assert(forall|bit: u64| #[trigger] (0u64 & bit) == 0) by (bit_vector);
}

/// A presence bit outside the known ones is refused, and none inside is
/// refused for itself.
pub proof fn law_unknown_presence_bits_are_rejected(base: ResolvedOptions, opts: RegolithOptions)
    ensures
        opts.present & !OPT_KNOWN != 0 <==> opts.present > OPT_KNOWN,
        opts.present > OPT_KNOWN ==> resolved(base, opts) == Err::<
            ResolvedOptions,
            failure::FailureView,
        >(
            failure::invalid(
                "invalid option `present`: unknown presence bits "@ + text::hex(
                    (opts.present & !OPT_KNOWN) as nat,
                ),
            ),
        ),
{
    let present = opts.present;
    assert(present & !0x7fu64 != 0 <==> present > 0x7f) by (bit_vector);
}

/// Does `detail` name `field` as what is wrong?
pub open spec fn names_field(detail: Seq<char>, field: Seq<char>) -> bool {
    ("invalid option `"@ + field + "`: "@).is_prefix_of(detail)
}

/// Options that are refused are refused with [`failure::INVALID_ARG`] and a
/// detail that names the field.
pub proof fn law_refusal_names_the_field(base: ResolvedOptions, opts: RegolithOptions)
    requires
        resolved(base, opts) is Err,
    ensures
        ({
            let refusal = resolved(base, opts)->Err_0;
            let detail = refusal.detail->Some_0;
            &&& refusal.status == failure::INVALID_ARG
            &&& refusal.detail is Some
            &&& {
                ||| names_field(detail, "present"@)
                ||| names_field(detail, "write_buffer_size"@)
                ||| names_field(detail, "block_cache_size"@)
                ||| names_field(detail, "max_background_compactions"@)
                ||| names_field(detail, "transaction_keys_inline"@)
                ||| names_field(detail, "compression"@)
                ||| names_field(detail, "durability"@)
                ||| names_field(detail, "isolation"@)
            }
        }),
{
    reveal_strlit("invalid option `");
    reveal_strlit("`: ");
    reveal_strlit("present");
    reveal_strlit("write_buffer_size");
    reveal_strlit("compression");
    reveal_strlit("durability");
    reveal_strlit("isolation");
    reveal_strlit("invalid option `present`: unknown presence bits ");
    reveal_strlit("invalid option `compression`: unknown codec ");
    reveal_strlit("invalid option `durability`: unknown mode ");
    reveal_strlit("invalid option `isolation`: unknown level ");
}

/// A field that is present takes the value it was given, zero as well as
/// any other, and every other field keeps its default.
pub proof fn law_present_fields_are_taken_as_given(base: ResolvedOptions, opts: RegolithOptions)
    requires
        resolved(base, opts) is Ok,
    ensures
        ({
            let result = resolved(base, opts)->Ok_0;
            &&& result.engine.write_buffer_size == if is_set(opts, OPT_WRITE_BUFFER_SIZE) {
                opts.write_buffer_size as int
            } else {
                base.engine.write_buffer_size as int
            }
            &&& result.engine.block_cache_size == if is_set(opts, OPT_BLOCK_CACHE_SIZE) {
                opts.block_cache_size as int
            } else {
                base.engine.block_cache_size as int
            }
            &&& result.engine.max_background_compactions == if is_set(
                opts,
                OPT_MAX_BACKGROUND_COMPACTIONS,
            ) {
                opts.max_background_compactions as int
            } else {
                base.engine.max_background_compactions as int
            }
            &&& result.engine.transaction_keys_inline == if is_set(opts, OPT_TRANSACTION_KEYS_INLINE) {
                opts.transaction_keys_inline as int
            } else {
                base.engine.transaction_keys_inline as int
            }
            &&& is_set(opts, OPT_COMPRESSION) ==> codec(opts.compression) == Some(
                result.engine.compression,
            )
            &&& !is_set(opts, OPT_COMPRESSION) ==> result.engine.compression
                == base.engine.compression
            &&& is_set(opts, OPT_DURABILITY) ==> mode(opts.durability) == Some(
                result.engine.durability,
            )
            &&& !is_set(opts, OPT_DURABILITY) ==> result.engine.durability == base.engine.durability
            &&& is_set(opts, OPT_ISOLATION) ==> level(opts.isolation) == Some(result.isolation)
            &&& !is_set(opts, OPT_ISOLATION) ==> result.isolation == base.isolation
        }),
{
}

/// The fields that are not present are not looked at: options that agree
/// on what is present and on the fields present resolve alike.
pub proof fn law_absent_fields_are_not_read(
    base: ResolvedOptions,
    one: RegolithOptions,
    other: RegolithOptions,
)
    requires
        one.present == other.present,
        is_set(one, OPT_WRITE_BUFFER_SIZE) ==> one.write_buffer_size == other.write_buffer_size,
        is_set(one, OPT_BLOCK_CACHE_SIZE) ==> one.block_cache_size == other.block_cache_size,
        is_set(one, OPT_MAX_BACKGROUND_COMPACTIONS) ==> one.max_background_compactions
            == other.max_background_compactions,
        is_set(one, OPT_TRANSACTION_KEYS_INLINE) ==> one.transaction_keys_inline
            == other.transaction_keys_inline,
        is_set(one, OPT_COMPRESSION) ==> one.compression == other.compression,
        is_set(one, OPT_DURABILITY) ==> one.durability == other.durability,
        is_set(one, OPT_ISOLATION) ==> one.isolation == other.isolation,
    ensures
        resolved(base, one) == resolved(base, other),
{
}

/// Is nothing wrong with these options? No presence bit but the known ones
/// is set, every number that is present fits in a `usize`, and every
/// discriminant that is present is one of its constants.
pub open spec fn in_order(opts: RegolithOptions) -> bool {
    &&& opts.present <= 0x7f
    &&& opts.present & 0x01 != 0 ==> opts.write_buffer_size <= usize::MAX
    &&& opts.present & 0x02 != 0 ==> opts.block_cache_size <= usize::MAX
    &&& opts.present & 0x04 != 0 ==> opts.max_background_compactions <= usize::MAX
    &&& opts.present & 0x08 != 0 ==> opts.transaction_keys_inline <= usize::MAX
    &&& opts.present & 0x10 != 0 ==> opts.compression <= 2
    &&& opts.present & 0x20 != 0 ==> opts.durability <= 1
    &&& opts.present & 0x40 != 0 ==> opts.isolation <= 3
}

/// Options are accepted exactly when nothing is wrong with them.
pub proof fn law_accepted_exactly_when_in_order(base: ResolvedOptions, opts: RegolithOptions)
    ensures
        resolved(base, opts) is Ok <==> in_order(opts),
{
    let present = opts.present;
    assert(present & !0x7fu64 != 0 <==> present > 0x7f) by (bit_vector);
}

/// What each field of accepted options comes to, by its presence bit and
/// the number or discriminant it was given.
pub proof fn law_each_field_comes_to_what_it_says(base: ResolvedOptions, opts: RegolithOptions)
    requires
        in_order(opts),
    ensures
        ({
            let result = resolved(base, opts)->Ok_0;
            let engine = result.engine;
            &&& engine.write_buffer_size == if opts.present & 0x01 != 0 {
                opts.write_buffer_size as int
            } else {
                base.engine.write_buffer_size as int
            }
            &&& engine.block_cache_size == if opts.present & 0x02 != 0 {
                opts.block_cache_size as int
            } else {
                base.engine.block_cache_size as int
            }
            &&& engine.max_background_compactions == if opts.present & 0x04 != 0 {
                opts.max_background_compactions as int
            } else {
                base.engine.max_background_compactions as int
            }
            &&& engine.transaction_keys_inline == if opts.present & 0x08 != 0 {
                opts.transaction_keys_inline as int
            } else {
                base.engine.transaction_keys_inline as int
            }
            &&& opts.present & 0x10 == 0 ==> engine.compression == base.engine.compression
            &&& opts.present & 0x10 != 0 ==> {
                &&& engine.compression is Uncompressed <==> opts.compression == 0
                &&& engine.compression is Snappy <==> opts.compression == 1
                &&& engine.compression is Lz4 <==> opts.compression == 2
            }
            &&& opts.present & 0x20 == 0 ==> engine.durability == base.engine.durability
            &&& opts.present & 0x20 != 0 ==> {
                &&& engine.durability is Immediate <==> opts.durability == 0
                &&& engine.durability is Eventual <==> opts.durability == 1
            }
            &&& opts.present & 0x40 == 0 ==> result.isolation == base.isolation
            &&& opts.present & 0x40 != 0 ==> {
                &&& result.isolation is ReadCommitted <==> opts.isolation == 0
                &&& result.isolation is SnapshotIsolation <==> opts.isolation == 1
                &&& result.isolation is Serializable <==> opts.isolation == 2
                &&& result.isolation is RepeatableRead <==> opts.isolation == 3
            }
        }),
{
    law_accepted_exactly_when_in_order(base, opts);
}

/// Where something is wrong, the first field that is wrong is reported, in
/// the order the fields are laid out, with its value.
pub proof fn law_first_wrong_field_is_reported(base: ResolvedOptions, opts: RegolithOptions)
    requires
        opts.present <= 0x7f,
    ensures
        ({
            let wide = |bit: u64, value: u64| opts.present & bit != 0 && value > usize::MAX;
            let first = wide(0x01, opts.write_buffer_size);
            let second = wide(0x02, opts.block_cache_size);
            let third = wide(0x04, opts.max_background_compactions);
            let fourth = wide(0x08, opts.transaction_keys_inline);
            let numbers = first || second || third || fourth;
            let codec_wrong = opts.present & 0x10 != 0 && opts.compression > 2;
            let mode_wrong = opts.present & 0x20 != 0 && opts.durability > 1;
            let level_wrong = opts.present & 0x40 != 0 && opts.isolation > 3;
            let fits = " does not fit in a usize on this platform"@;
            let reason = resolved(base, opts)->Err_0.detail->Some_0;
            &&& first ==> reason == "invalid option `"@ + "write_buffer_size"@ + "`: "@
                + text::decimal(opts.write_buffer_size as nat) + fits
            &&& !first && second ==> reason == "invalid option `"@ + "block_cache_size"@ + "`: "@
                + text::decimal(opts.block_cache_size as nat) + fits
            &&& !first && !second && third ==> reason == "invalid option `"@
                + "max_background_compactions"@ + "`: "@ + text::decimal(
                opts.max_background_compactions as nat,
            ) + fits
            &&& !first && !second && !third && fourth ==> reason == "invalid option `"@
                + "transaction_keys_inline"@ + "`: "@ + text::decimal(
                opts.transaction_keys_inline as nat,
            ) + fits
            &&& !numbers && codec_wrong ==> reason == "invalid option `compression`: unknown codec "@
                + text::decimal(opts.compression as nat)
            &&& !numbers && !codec_wrong && mode_wrong ==> reason
                == "invalid option `durability`: unknown mode "@ + text::decimal(
                opts.durability as nat,
            )
            &&& !numbers && !codec_wrong && !mode_wrong && level_wrong ==> reason
                == "invalid option `isolation`: unknown level "@ + text::decimal(
                opts.isolation as nat,
            )
        }),
{
    let present = opts.present;
    assert(present & !0x7fu64 != 0 <==> present > 0x7f) by (bit_vector);
}

/// The presence bits and the discriminants are part of the interface.
pub proof fn law_option_constants()
    ensures
        OPT_WRITE_BUFFER_SIZE == 1,
        OPT_BLOCK_CACHE_SIZE == 2,
        OPT_MAX_BACKGROUND_COMPACTIONS == 4,
        OPT_TRANSACTION_KEYS_INLINE == 8,
        OPT_COMPRESSION == 16,
        OPT_DURABILITY == 32,
        OPT_ISOLATION == 64,
        COMPRESSION_NONE == 0,
        COMPRESSION_SNAPPY == 1,
        COMPRESSION_LZ4 == 2,
        DURABILITY_IMMEDIATE == 0,
        DURABILITY_EVENTUAL == 1,
        ISOLATION_READ_COMMITTED == 0,
        ISOLATION_SNAPSHOT == 1,
        ISOLATION_SERIALIZABLE == 2,
        ISOLATION_REPEATABLE_READ == 3,
{
}

} // verus!
