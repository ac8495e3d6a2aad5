//! Soroban host function table and resource categories.
//!
//! Soroban contracts reach the host through imports with one-letter module
//! names and short export names (for example `("l", "1")` is
//! `get_contract_data`). The table below is the Soroban 22 interface
//! (`env.json` in `soroban-env-common`), so every host call a contract makes
//! can be named and attributed to the resource it consumes.

use vstd::prelude::*;
use crate::text::{chars_of, eq_str, is_prefix, starts_with_str, str_eq};

verus! {

/// The resource family a host function draws on.
#[derive(Debug, Clone, Copy, PartialEq, Eq, Structural, Hash, PartialOrd, Ord)]
pub enum HostCategory {
    /// Ledger reads (`get_contract_data`, `has_contract_data`).
    StorageRead,
    /// Ledger writes and deletes.
    StorageWrite,
    /// TTL extensions (rent on persistent/instance entries).
    StorageTtl,
    /// Contract / code deployment and upgrades.
    Deploy,
    /// Cross-contract calls.
    CrossContract,
    /// Hashing, signature verification and BLS12-381 operations.
    Crypto,
    /// `require_auth*` and related authorization checks.
    Auth,
    /// `contract_event`.
    Event,
    /// `log_from_linear_memory`.
    Log,
    /// XDR (de)serialization of values to/from `Bytes`.
    Serialization,
    /// Host object manipulation (Vec, Map, Bytes, String, big integers).
    Object,
    /// Ledger/context information and error signalling.
    Context,
    /// Pseudo-random number generation.
    Prng,
    /// Test-only host functions.
    Test,
    /// An import that is not part of the Soroban 22 interface.
    Unknown,
}

/// Relative weight of a category in the static cost index.
pub open spec fn category_weight(c: HostCategory) -> u64 {
    match c {
        HostCategory::StorageWrite => 400,
        HostCategory::CrossContract => 400,
        HostCategory::Deploy => 400,
        HostCategory::StorageRead => 200,
        HostCategory::StorageTtl => 150,
        HostCategory::Crypto => 150,
        HostCategory::Auth => 100,
        HostCategory::Event => 60,
        HostCategory::Serialization => 40,
        HostCategory::Prng => 20,
        HostCategory::Log => 10,
        HostCategory::Object => 10,
        HostCategory::Context => 5,
        HostCategory::Test => 1,
        HostCategory::Unknown => 50,
    }
}

/// Categories whose use inside a loop is worth flagging.
pub open spec fn category_is_expensive(c: HostCategory) -> bool {
    match c {
        HostCategory::StorageRead | HostCategory::StorageWrite | HostCategory::StorageTtl
        | HostCategory::CrossContract | HostCategory::Crypto | HostCategory::Deploy
        | HostCategory::Event | HostCategory::Auth => true,
        _ => false,
    }
}

impl HostCategory {
    /// Relative weight used by the static cost index: ordinal weights that
    /// encode that a storage write is far more expensive than a vector push.
    pub fn weight(self) -> (r: u64)
        ensures
            r == category_weight(self),
    {
        match self {
            HostCategory::StorageWrite => 400,
            HostCategory::CrossContract => 400,
            HostCategory::Deploy => 400,
            HostCategory::StorageRead => 200,
            HostCategory::StorageTtl => 150,
            HostCategory::Crypto => 150,
            HostCategory::Auth => 100,
            HostCategory::Event => 60,
            HostCategory::Serialization => 40,
            HostCategory::Prng => 20,
            HostCategory::Log => 10,
            HostCategory::Object => 10,
            HostCategory::Context => 5,
            HostCategory::Test => 1,
            HostCategory::Unknown => 50,
        }
    }

    /// True for categories whose use inside a loop is worth flagging.
    pub fn is_expensive(self) -> (r: bool)
        ensures
            r == category_is_expensive(self),
    {
        match self {
            HostCategory::StorageRead | HostCategory::StorageWrite | HostCategory::StorageTtl
            | HostCategory::CrossContract | HostCategory::Crypto | HostCategory::Deploy
            | HostCategory::Event | HostCategory::Auth => true,
            _ => false,
        }
    }

    /// Stable kebab-case label.
    pub fn label(self) -> (r: &'static str)
        ensures
            r@ == category_label(self)@,
    {
        match self {
            HostCategory::StorageRead => "storage-read",
            HostCategory::StorageWrite => "storage-write",
            HostCategory::StorageTtl => "storage-ttl",
            HostCategory::Deploy => "deploy",
            HostCategory::CrossContract => "cross-contract",
            HostCategory::Crypto => "crypto",
            HostCategory::Auth => "auth",
            HostCategory::Event => "event",
            HostCategory::Log => "log",
            HostCategory::Serialization => "serialization",
            HostCategory::Object => "object",
            HostCategory::Context => "context",
            HostCategory::Prng => "prng",
            HostCategory::Test => "test",
            HostCategory::Unknown => "unknown",
        }
    }
}

/// Label of each category.
pub open spec fn category_label(c: HostCategory) -> &'static str {
    match c {
        HostCategory::StorageRead => "storage-read",
        HostCategory::StorageWrite => "storage-write",
        HostCategory::StorageTtl => "storage-ttl",
        HostCategory::Deploy => "deploy",
        HostCategory::CrossContract => "cross-contract",
        HostCategory::Crypto => "crypto",
        HostCategory::Auth => "auth",
        HostCategory::Event => "event",
        HostCategory::Log => "log",
        HostCategory::Serialization => "serialization",
        HostCategory::Object => "object",
        HostCategory::Context => "context",
        HostCategory::Prng => "prng",
        HostCategory::Test => "test",
        HostCategory::Unknown => "unknown",
    }
}

/// `(module, export, name)` for every host function in the Soroban 22
/// interface.
pub const HOST_FUNCTIONS: [(&'static str, &'static str, &'static str); 161] = [
    ("x", "_", "log_from_linear_memory"),
    ("x", "0", "obj_cmp"),
    ("x", "1", "contract_event"),
    ("x", "2", "get_ledger_version"),
    ("x", "3", "get_ledger_sequence"),
    ("x", "4", "get_ledger_timestamp"),
    ("x", "5", "fail_with_error"),
    ("x", "6", "get_ledger_network_id"),
    ("x", "7", "get_current_contract_address"),
    ("x", "8", "get_max_live_until_ledger"),
    ("i", "_", "obj_from_u64"),
    ("i", "0", "obj_to_u64"),
    ("i", "1", "obj_from_i64"),
    ("i", "2", "obj_to_i64"),
    ("i", "3", "obj_from_u128_pieces"),
    ("i", "4", "obj_to_u128_lo64"),
    ("i", "5", "obj_to_u128_hi64"),
    ("i", "6", "obj_from_i128_pieces"),
    ("i", "7", "obj_to_i128_lo64"),
    ("i", "8", "obj_to_i128_hi64"),
    ("i", "9", "obj_from_u256_pieces"),
    ("i", "a", "u256_val_from_be_bytes"),
    ("i", "b", "u256_val_to_be_bytes"),
    ("i", "c", "obj_to_u256_hi_hi"),
    ("i", "d", "obj_to_u256_hi_lo"),
    ("i", "e", "obj_to_u256_lo_hi"),
    ("i", "f", "obj_to_u256_lo_lo"),
    ("i", "g", "obj_from_i256_pieces"),
    ("i", "h", "i256_val_from_be_bytes"),
    ("i", "i", "i256_val_to_be_bytes"),
    ("i", "j", "obj_to_i256_hi_hi"),
    ("i", "k", "obj_to_i256_hi_lo"),
    ("i", "l", "obj_to_i256_lo_hi"),
    ("i", "m", "obj_to_i256_lo_lo"),
    ("i", "n", "u256_add"),
    ("i", "o", "u256_sub"),
    ("i", "p", "u256_mul"),
    ("i", "q", "u256_div"),
    ("i", "r", "u256_rem_euclid"),
    ("i", "s", "u256_pow"),
    ("i", "t", "u256_shl"),
    ("i", "u", "u256_shr"),
    ("i", "v", "i256_add"),
    ("i", "w", "i256_sub"),
    ("i", "x", "i256_mul"),
    ("i", "y", "i256_div"),
    ("i", "z", "i256_rem_euclid"),
    ("i", "A", "i256_pow"),
    ("i", "B", "i256_shl"),
    ("i", "C", "i256_shr"),
    ("i", "D", "timepoint_obj_from_u64"),
    ("i", "E", "timepoint_obj_to_u64"),
    ("i", "F", "duration_obj_from_u64"),
    ("i", "G", "duration_obj_to_u64"),
    ("m", "_", "map_new"),
    ("m", "0", "map_put"),
    ("m", "1", "map_get"),
    ("m", "2", "map_del"),
    ("m", "3", "map_len"),
    ("m", "4", "map_has"),
    ("m", "5", "map_key_by_pos"),
    ("m", "6", "map_val_by_pos"),
    ("m", "7", "map_keys"),
    ("m", "8", "map_values"),
    ("m", "9", "map_new_from_linear_memory"),
    ("m", "a", "map_unpack_to_linear_memory"),
    ("v", "_", "vec_new"),
    ("v", "0", "vec_put"),
    ("v", "1", "vec_get"),
    ("v", "2", "vec_del"),
    ("v", "3", "vec_len"),
    ("v", "4", "vec_push_front"),
    ("v", "5", "vec_pop_front"),
    ("v", "6", "vec_push_back"),
    ("v", "7", "vec_pop_back"),
    ("v", "8", "vec_front"),
    ("v", "9", "vec_back"),
    ("v", "a", "vec_insert"),
    ("v", "b", "vec_append"),
    ("v", "c", "vec_slice"),
    ("v", "d", "vec_first_index_of"),
    ("v", "e", "vec_last_index_of"),
    ("v", "f", "vec_binary_search"),
    ("v", "g", "vec_new_from_linear_memory"),
    ("v", "h", "vec_unpack_to_linear_memory"),
    ("l", "_", "put_contract_data"),
    ("l", "0", "has_contract_data"),
    ("l", "1", "get_contract_data"),
    ("l", "2", "del_contract_data"),
    ("l", "3", "create_contract"),
    ("l", "4", "create_asset_contract"),
    ("l", "5", "upload_wasm"),
    ("l", "6", "update_current_contract_wasm"),
    ("l", "7", "extend_contract_data_ttl"),
    ("l", "8", "extend_current_contract_instance_and_code_ttl"),
    ("l", "9", "extend_contract_instance_and_code_ttl"),
    ("l", "a", "get_contract_id"),
    ("l", "b", "get_asset_contract_id"),
    ("l", "c", "extend_contract_instance_ttl"),
    ("l", "d", "extend_contract_code_ttl"),
    ("l", "e", "create_contract_with_constructor"),
    ("d", "_", "call"),
    ("d", "0", "try_call"),
    ("b", "_", "serialize_to_bytes"),
    ("b", "0", "deserialize_from_bytes"),
    ("b", "1", "bytes_copy_to_linear_memory"),
    ("b", "2", "bytes_copy_from_linear_memory"),
    ("b", "3", "bytes_new_from_linear_memory"),
    ("b", "4", "bytes_new"),
    ("b", "5", "bytes_put"),
    ("b", "6", "bytes_get"),
    ("b", "7", "bytes_del"),
    ("b", "8", "bytes_len"),
    ("b", "9", "bytes_push"),
    ("b", "a", "bytes_pop"),
    ("b", "b", "bytes_front"),
    ("b", "c", "bytes_back"),
    ("b", "d", "bytes_insert"),
    ("b", "e", "bytes_append"),
    ("b", "f", "bytes_slice"),
    ("b", "g", "string_copy_to_linear_memory"),
    ("b", "h", "symbol_copy_to_linear_memory"),
    ("b", "i", "string_new_from_linear_memory"),
    ("b", "j", "symbol_new_from_linear_memory"),
    ("b", "k", "string_len"),
    ("b", "l", "symbol_len"),
    ("b", "m", "symbol_index_in_linear_memory"),
    ("c", "_", "compute_hash_sha256"),
    ("c", "0", "verify_sig_ed25519"),
    ("c", "1", "compute_hash_keccak256"),
    ("c", "2", "recover_key_ecdsa_secp256k1"),
    ("c", "3", "verify_sig_ecdsa_secp256r1"),
    ("c", "4", "bls12_381_check_g1_is_in_subgroup"),
    ("c", "5", "bls12_381_g1_add"),
    ("c", "6", "bls12_381_g1_mul"),
    ("c", "7", "bls12_381_g1_msm"),
    ("c", "8", "bls12_381_map_fp_to_g1"),
    ("c", "9", "bls12_381_hash_to_g1"),
    ("c", "a", "bls12_381_check_g2_is_in_subgroup"),
    ("c", "b", "bls12_381_g2_add"),
    ("c", "c", "bls12_381_g2_mul"),
    ("c", "d", "bls12_381_g2_msm"),
    ("c", "e", "bls12_381_map_fp2_to_g2"),
    ("c", "f", "bls12_381_hash_to_g2"),
    ("c", "g", "bls12_381_multi_pairing_check"),
    ("c", "h", "bls12_381_fr_add"),
    ("c", "i", "bls12_381_fr_sub"),
    ("c", "j", "bls12_381_fr_mul"),
    ("c", "k", "bls12_381_fr_pow"),
    ("c", "l", "bls12_381_fr_inv"),
    ("a", "_", "require_auth_for_args"),
    ("a", "0", "require_auth"),
    ("a", "1", "strkey_to_address"),
    ("a", "2", "address_to_strkey"),
    ("a", "3", "authorize_as_curr_contract"),
    ("t", "_", "dummy0"),
    ("t", "0", "protocol_gated_dummy"),
    ("p", "_", "prng_reseed"),
    ("p", "0", "prng_bytes_new"),
    ("p", "1", "prng_u64_in_inclusive_range"),
    ("p", "2", "prng_vec_shuffle"),
];

/// The first entry of `table` whose module and export are `(m, f)`, by name.
pub open spec fn lookup_host(table: Seq<(&'static str, &'static str, &'static str)>, m: Seq<char>, f: Seq<char>) -> Option<
    Seq<char>,
>
    decreases table.len(),
{
    if table.len() == 0 {
        None
    } else if table[0].0@ == m && table[0].1@ == f {
        Some(table[0].2@)
    } else {
        lookup_host(table.drop_first(), m, f)
    }
}

/// The modules of the Soroban host interface.
pub open spec fn host_module(m: Seq<char>) -> bool {
    m == "x"@ || m == "a"@ || m == "b"@ || m == "c"@ || m == "d"@ || m == "i"@ || m == "l"@
        || m == "m"@ || m == "p"@ || m == "t"@ || m == "v"@
}

proof fn lemma_table_modules()
    ensures
        forall|k: int| 0 <= k < HOST_FUNCTIONS@.len() ==> host_module(#[trigger] HOST_FUNCTIONS@[k].0@),
{
    assert forall|k: int| 0 <= k < HOST_FUNCTIONS@.len() implies host_module(#[trigger] HOST_FUNCTIONS@[k].0@) by {
    }
}

/// Host function name of the import `(m, f)` in the Soroban 22 interface.
pub open spec fn host_name_spec(m: Seq<char>, f: Seq<char>) -> Option<Seq<char>> {
    lookup_host(HOST_FUNCTIONS@, m, f)
}

/// Resolve an import to its host function name, if it is a known Soroban
/// host function.
pub fn host_function_name(module: &str, field: &str) -> (r: Option<&'static str>)
    ensures
        match r {
            Some(n) => host_name_spec(module@, field@) == Some(n@),
            None => host_name_spec(module@, field@) is None,
        },
{
    let table = &HOST_FUNCTIONS;
    let m = chars_of(module);
    let f = chars_of(field);
    let mut i: usize = 0;
    assert(table@.skip(0) =~= table@);
    while i < table.len()
        invariant
            i <= table@.len(),
            table@ == HOST_FUNCTIONS@,
            m@ == module@,
            f@ == field@,
            lookup_host(table@.skip(i as int), module@, field@) == host_name_spec(module@, field@),
        decreases table@.len() - i,
    {
        let (tm, tf, tn) = table[i];
        assert(table@.skip(i as int)[0] == table@[i as int]);
        assert(table@.skip(i as int).drop_first() =~= table@.skip(i + 1));
        if eq_str(&m, tm) && eq_str(&f, tf) {
            return Some(tn);
        }
        i += 1;
    }
    None
}

/// Category of a host function named `name` imported from module `m`.
pub open spec fn category_of_name(m: Seq<char>, name: Seq<char>) -> HostCategory {
    if m == "l"@ {
        if name == "get_contract_data"@ || name == "has_contract_data"@ {
            HostCategory::StorageRead
        } else if name == "put_contract_data"@ || name == "del_contract_data"@ {
            HostCategory::StorageWrite
        } else if is_prefix("extend_"@, name) {
            HostCategory::StorageTtl
        } else if name == "get_contract_id"@ || name == "get_asset_contract_id"@ {
            HostCategory::Context
        } else {
            HostCategory::Deploy
        }
    } else if m == "d"@ {
        HostCategory::CrossContract
    } else if m == "c"@ {
        HostCategory::Crypto
    } else if m == "a"@ {
        if name == "require_auth"@ || name == "require_auth_for_args"@ || name
            == "authorize_as_curr_contract"@ {
            HostCategory::Auth
        } else {
            HostCategory::Object
        }
    } else if m == "x"@ {
        if name == "contract_event"@ {
            HostCategory::Event
        } else if name == "log_from_linear_memory"@ {
            HostCategory::Log
        } else {
            HostCategory::Context
        }
    } else if m == "b"@ {
        if name == "serialize_to_bytes"@ || name == "deserialize_from_bytes"@ {
            HostCategory::Serialization
        } else {
            HostCategory::Object
        }
    } else if m == "i"@ || m == "m"@ || m == "v"@ {
        HostCategory::Object
    } else if m == "p"@ {
        HostCategory::Prng
    } else if m == "t"@ {
        HostCategory::Test
    } else {
        HostCategory::Unknown
    }
}

/// Category of the import `(m, f)`: `Unknown` unless it is a known host
/// function.
pub open spec fn categorize_spec(m: Seq<char>, f: Seq<char>) -> HostCategory {
    match host_name_spec(m, f) {
        Some(name) => category_of_name(m, name),
        None => HostCategory::Unknown,
    }
}

proof fn lemma_lookup_module(
    table: Seq<(&'static str, &'static str, &'static str)>,
    m: Seq<char>,
    f: Seq<char>,
)
    requires
        forall|k: int| 0 <= k < table.len() ==> host_module(#[trigger] table[k].0@),
    ensures
        lookup_host(table, m, f) is Some ==> host_module(m),
    decreases table.len(),
{
    if table.len() > 0 {
        assert(host_module(table[0].0@));
        let rest = table.drop_first();
        assert forall|k: int| 0 <= k < rest.len() implies host_module(#[trigger] rest[k].0@) by {
            assert(rest[k] == table[k + 1]);
        }
        lemma_lookup_module(rest, m, f);
    }
}

/// An import is categorized `Unknown` exactly when it is not a known host
/// function: every host function falls in a category of its module.
pub proof fn law_unknown_iff_not_host_function(m: Seq<char>, f: Seq<char>)
    ensures
        (categorize_spec(m, f) == HostCategory::Unknown) == (host_name_spec(m, f) is None),
{
    lemma_table_modules();
    lemma_lookup_module(HOST_FUNCTIONS@, m, f);
}

/// Classify an import by the resource it consumes.
pub fn categorize(module: &str, field: &str) -> (r: HostCategory)
    ensures
        r == categorize_spec(module@, field@),
{
    let name = match host_function_name(module, field) {
        Some(n) => n,
        None => return HostCategory::Unknown,
    };
    let n = chars_of(name);
    if str_eq(module, "l") {
        if eq_str(&n, "get_contract_data") || eq_str(&n, "has_contract_data") {
            HostCategory::StorageRead
        } else if eq_str(&n, "put_contract_data") || eq_str(&n, "del_contract_data") {
            HostCategory::StorageWrite
        } else if starts_with_str(&n, "extend_") {
            HostCategory::StorageTtl
        } else if eq_str(&n, "get_contract_id") || eq_str(&n, "get_asset_contract_id") {
            HostCategory::Context
        } else {
            HostCategory::Deploy
        }
    } else if str_eq(module, "d") {
        HostCategory::CrossContract
    } else if str_eq(module, "c") {
        HostCategory::Crypto
    } else if str_eq(module, "a") {
        if eq_str(&n, "require_auth") || eq_str(&n, "require_auth_for_args") || eq_str(
            &n,
            "authorize_as_curr_contract",
        ) {
            HostCategory::Auth
        } else {
            HostCategory::Object
        }
    } else if str_eq(module, "x") {
        if eq_str(&n, "contract_event") {
            HostCategory::Event
        } else if eq_str(&n, "log_from_linear_memory") {
            HostCategory::Log
        } else {
            HostCategory::Context
        }
    } else if str_eq(module, "b") {
        if eq_str(&n, "serialize_to_bytes") || eq_str(&n, "deserialize_from_bytes") {
            HostCategory::Serialization
        } else {
            HostCategory::Object
        }
    } else if str_eq(module, "i") || str_eq(module, "m") || str_eq(module, "v") {
        HostCategory::Object
    } else if str_eq(module, "p") {
        HostCategory::Prng
    } else if str_eq(module, "t") {
        HostCategory::Test
    } else {
        HostCategory::Unknown
    }
}

} // verus!
