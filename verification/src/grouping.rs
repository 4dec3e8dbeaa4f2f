//! Row keys and display labels of grouped usage, and the account buckets that bill.
use vstd::prelude::*;

use crate::text::{chars_of, decimal, find_last, push_decimal, push_str, rfind_seq, slice_chars, string_from_chars, str_equal};

verus! {

/// How usage rows are grouped into model rows.
#[derive(Debug, Clone, Copy, PartialEq, Eq, Structural)]
pub enum GroupBy {
    Model,
    ClientModel,
    ClientProviderModel,
    WorkspaceModel,
}

/// `a / b`: a label and a model joined for display.
pub open spec fn slash_join(a: Seq<char>, b: Seq<char>) -> Seq<char> {
    a + " / "@ + b
}

/// `a:b`: two parts joined into a key.
pub open spec fn colon_join(a: Seq<char>, b: Seq<char>) -> Seq<char> {
    a + ":"@ + b
}

fn join_with(a: &str, sep: &str, b: &str) -> (r: String)
    ensures
        r@ == a@ + sep@ + b@,
{
    let mut out = String::new();
    push_str(&mut out, a);
    push_str(&mut out, sep);
    push_str(&mut out, b);
    out
}

/// The display label of a workspace's model row: `workspace / model`.
pub fn workspace_model_display_label(workspace_label: &str, model: &str) -> (r: String)
    ensures
        r@ == slash_join(workspace_label@, model@),
{
    join_with(workspace_label, " / ", model)
}

/// The key of a workspace's model row within a day: the workspace key's length in UTF-8
/// bytes, the key, and the model, joined by colons (so keys with colons cannot collide).
pub open spec fn spec_workspace_model_daily_key(group_key: Seq<char>, model: Seq<char>) -> Seq<char> {
    colon_join(
        colon_join(decimal((vstd::utf8::encode_utf8(group_key).len() as usize) as nat), group_key),
        model,
    )
}

/// The key of a workspace's model row within a day.
pub fn workspace_model_daily_key(workspace_group_key: &str, model: &str) -> (r: String)
    ensures
        r@ == spec_workspace_model_daily_key(workspace_group_key@, model@),
{
    let mut out = String::new();
    push_decimal(&mut out, workspace_group_key.len() as u64);
    push_str(&mut out, ":");
    push_str(&mut out, workspace_group_key);
    push_str(&mut out, ":");
    push_str(&mut out, model);
    proof {
        reveal_strlit(":");
    }
    assert(out@ =~= spec_workspace_model_daily_key(workspace_group_key@, model@));
    out
}

/// The key of a model row in a day's per-client breakdown.
pub open spec fn spec_daily_source_model_key(
    group_by: GroupBy,
    workspace_group_key: Seq<char>,
    provider_id: Seq<char>,
    model: Seq<char>,
) -> Seq<char> {
    match group_by {
        GroupBy::WorkspaceModel => spec_workspace_model_daily_key(workspace_group_key, model),
        GroupBy::ClientProviderModel => colon_join(provider_id, model),
        GroupBy::Model | GroupBy::ClientModel => model,
    }
}

/// The key of a model row in a day's per-client breakdown.
pub fn daily_source_model_key(
    group_by: &GroupBy,
    workspace_group_key: &str,
    provider_id: &str,
    model: &str,
) -> (r: String)
    ensures
        r@ == spec_daily_source_model_key(*group_by, workspace_group_key@, provider_id@, model@),
{
    match group_by {
        GroupBy::WorkspaceModel => workspace_model_daily_key(workspace_group_key, model),
        GroupBy::ClientProviderModel => join_with(provider_id, ":", model),
        GroupBy::Model | GroupBy::ClientModel => model.to_owned(),
    }
}

/// The display name of a model row in a day's per-client breakdown.
pub open spec fn spec_daily_source_model_display_name(
    group_by: GroupBy,
    workspace_label: Seq<char>,
    provider_id: Seq<char>,
    model: Seq<char>,
) -> Seq<char> {
    match group_by {
        GroupBy::WorkspaceModel => slash_join(workspace_label, model),
        GroupBy::ClientProviderModel => slash_join(provider_id, model),
        GroupBy::Model | GroupBy::ClientModel => model,
    }
}

/// The display name of a model row in a day's per-client breakdown.
pub fn daily_source_model_display_name(
    group_by: &GroupBy,
    workspace_label: &str,
    provider_id: &str,
    model: &str,
) -> (r: String)
    ensures
        r@ == spec_daily_source_model_display_name(*group_by, workspace_label@, provider_id@, model@),
{
    match group_by {
        GroupBy::WorkspaceModel => workspace_model_display_label(workspace_label, model),
        GroupBy::ClientProviderModel => join_with(provider_id, " / ", model),
        GroupBy::Model | GroupBy::ClientModel => model.to_owned(),
    }
}

/// The colour key of a model row: the model itself under every grouping.
pub fn model_color_key(group_by: &GroupBy, provider_id: &str, model: &str) -> (r: String)
    ensures
        r@ == model@,
{
    model.to_owned()
}

/// The key of a model row within an hour: `provider:model` when providers are kept apart,
/// else the model.
pub fn hourly_model_key(group_by: &GroupBy, provider_id: &str, model: &str) -> (r: String)
    ensures
        r@ == (if *group_by == GroupBy::ClientProviderModel {
            colon_join(provider_id@, model@)
        } else {
            model@
        }),
{
    match group_by {
        GroupBy::ClientProviderModel => join_with(provider_id, ":", model),
        _ => model.to_owned(),
    }
}

/// The display name of a model row within an hour: `provider / model` when providers are
/// kept apart, else the model.
pub fn hourly_model_display_name(group_by: &GroupBy, provider_id: &str, model: &str) -> (r: String)
    ensures
        r@ == (if *group_by == GroupBy::ClientProviderModel {
            slash_join(provider_id@, model@)
        } else {
            model@
        }),
{
    match group_by {
        GroupBy::ClientProviderModel => join_with(provider_id, " / ", model),
        _ => model.to_owned(),
    }
}

/// The group key of messages without a workspace (it cannot collide with a real path).
pub open spec fn unknown_workspace_group_key() -> Seq<char> {
    "\0unknown-workspace"@
}

/// The label of messages without a workspace.
pub open spec fn unknown_workspace_label() -> Seq<char> {
    "Unknown workspace"@
}

/// The (group key, workspace key, label) of a message's workspace. A keyed workspace groups
/// by its key and is labelled by its own label, else by the label derived from the key
/// (`label_from_key`), else as unknown; a message without a key falls in the unknown bucket.
pub fn workspace_bucket(
    workspace_key: &Option<String>,
    workspace_label: &Option<String>,
    label_from_key: &Option<String>,
) -> (r: (String, Option<String>, String))
    ensures
        workspace_key is Some ==> r.0@ == workspace_key->0@ && r.1 is Some && r.1->0@
            == workspace_key->0@ && r.2@ == (match workspace_label {
            Some(l) => l@,
            None => match label_from_key {
                Some(l) => l@,
                None => unknown_workspace_label(),
            },
        }),
        workspace_key is None ==> r.0@ == unknown_workspace_group_key() && r.1 is None && r.2@
            == unknown_workspace_label(),
{
    match workspace_key {
        Some(key) => {
            let label = match workspace_label {
                Some(l) => l.clone(),
                None => match label_from_key {
                    Some(l) => l.clone(),
                    None => "Unknown workspace".to_owned(),
                },
            };
            (key.clone(), Some(key.clone()), label)
        },
        None => ("\0unknown-workspace".to_owned(), None, "Unknown workspace".to_owned()),
    }
}

/// Whether an account bucket is a real account (which bills a subscription), rather than
/// `unattributed`, `mixed` or `ledger_error`.
pub open spec fn spec_is_billable_bucket(account_hash: Seq<char>) -> bool {
    account_hash != "unattributed"@ && account_hash != "mixed"@ && account_hash != "ledger_error"@
}

/// Whether an account bucket is a real account, which bills a subscription.
pub fn is_billable_codex_account_bucket(account_hash: &str) -> (r: bool)
    ensures
        r == spec_is_billable_bucket(account_hash@),
{
    !(str_equal(account_hash, "unattributed") || str_equal(account_hash, "mixed") || str_equal(
        account_hash,
        "ledger_error",
    ))
}

/// A pricing key without its provider path: the text after its last `/`, unless that is
/// empty or there is no `/`, in which case the key itself.
pub open spec fn spec_strip_pricing_provider_prefix(key: Seq<char>) -> Seq<char> {
    match find_last(key, seq!['/']) {
        Some(i) => if i + 1 < key.len() {
            key.skip(i + 1)
        } else {
            key
        },
        None => key,
    }
}

/// Strips the provider path from a pricing key (`accounts/x/models/m` gives `m`).
pub fn strip_pricing_provider_prefix(key: &str) -> (r: String)
    ensures
        r@ == spec_strip_pricing_provider_prefix(key@),
{
    let v = chars_of(key);
    let n = v.len();
    let slash = chars_of("/");
    proof {
        reveal_strlit("/");
        assert(slash@ =~= seq!['/']);
    }
    match rfind_seq(v.as_slice(), slash.as_slice()) {
        Some(i) => {
            if i + 1 < n {
                let tail = slice_chars(v.as_slice(), i + 1, n);
                assert(tail@ =~= v@.skip(i + 1));
                string_from_chars(tail.as_slice())
            } else {
                key.to_owned()
            }
        },
        None => key.to_owned(),
    }
}

/// The display name and colour key of a cached model row: an empty display name falls
/// back to the row key, and an empty colour key to the part of the display name after its
/// last ` / ` (or the whole display name).
pub open spec fn spec_cached_model_labels(key: Seq<char>, display_name: Seq<char>, color_key: Seq<char>) -> (
    Seq<char>,
    Seq<char>,
) {
    let display = if display_name.len() == 0 {
        key
    } else {
        display_name
    };
    let color = if color_key.len() == 0 {
        match find_last(display, " / "@) {
            Some(i) => display.skip(i + 3),
            None => display,
        }
    } else {
        color_key
    };
    (display, color)
}

/// Fills in the display name and colour key of a model row read from an older cache.
pub fn cached_model_labels(key: &str, display_name: &str, color_key: &str) -> (r: (String, String))
    ensures
        (r.0@, r.1@) == spec_cached_model_labels(key@, display_name@, color_key@),
{
    let display = if display_name.is_empty() {
        key.to_owned()
    } else {
        display_name.to_owned()
    };
    proof {
        reveal_strlit(" / ");
    }
    let color = if color_key.is_empty() {
        let v = chars_of(display.as_str());
        let sep = chars_of(" / ");
        match rfind_seq(v.as_slice(), sep.as_slice()) {
            Some(i) => {
                let n = v.len();
                let tail = slice_chars(v.as_slice(), i + 3, n);
                assert(tail@ =~= v@.skip(i + 3));
                string_from_chars(tail.as_slice())
            },
            None => display.clone(),
        }
    } else {
        color_key.to_owned()
    };
    (display, color)
}

/// The name a priced model is canonicalised from: the price table's matched key without its
/// provider prefix, unless that is empty or there is no match, in which case the model id.
pub open spec fn spec_price_name_source(model_id: Seq<char>, matched_key: Option<Seq<char>>) -> Seq<char> {
    match matched_key {
        Some(k) => if spec_strip_pricing_provider_prefix(k).len() > 0 {
            spec_strip_pricing_provider_prefix(k)
        } else {
            model_id
        },
        None => model_id,
    }
}

/// The name a priced model is canonicalised from (both its row model and its price category
/// are the grouping normalisation of this name).
pub fn price_name_source(model_id: &str, matched_key: &Option<String>) -> (r: String)
    ensures
        r@ == spec_price_name_source(model_id@, crate::ledger::opt_view(*matched_key)),
{
    match matched_key {
        Some(k) => {
            let stripped = strip_pricing_provider_prefix(k.as_str());
            if !stripped.as_str().is_empty() {
                stripped
            } else {
                model_id.to_owned()
            }
        },
        None => model_id.to_owned(),
    }
}

} // verus!
