//! Labels for opencode, a client that talks to the server.
use crate::gguf::{shown_name, GgufMetadata, MetadataView};
use crate::json;
use crate::json::{
    json_content, json_parsed, json_pretty, member_of, plain, read_depth, whole,
    whole_values_are_plain, JsonView,
};
use crate::profile::{RecommendationFile, RecommendationsView};
use crate::record::views;
use crate::text;
use vstd::prelude::*;

verus! {

/// Why a configuration was not updated.
#[derive(Debug)]
pub enum OpencodeError {
    /// The text is no JSON.
    InvalidJson(serde_json::Error),
    /// The configuration is not an object.
    NotAnObject,
}

/// A label for a client: its key, what it says, and the context.
#[derive(Debug)]
pub struct OpencodeEntry {
    pub key: String,
    pub label: String,
    pub context: u64,
}

/// What a label holds.
#[verifier::ext_equal]
pub struct EntryView {
    pub key: Seq<char>,
    pub label: Seq<char>,
    pub context: u64,
}

impl View for OpencodeEntry {
    type V = EntryView;

    open spec fn view(&self) -> EntryView {
        EntryView { key: self.key@, label: self.label@, context: self.context }
    }
}

// ---------------------------------------------------------------------------
// Updating a configuration

/// The members of a value, none for one that is no object.
pub open spec fn members_or_none(v: Option<serde_json::Value>) -> Map<Seq<char>, serde_json::Value> {
    match v {
        Some(x) => match json_content(x) {
            JsonView::Members(m) => m,
            _ => Map::empty(),
        },
        None => Map::empty(),
    }
}

/// The value is an object.
pub open spec fn is_members(v: Option<serde_json::Value>) -> bool {
    v matches Some(x) && json_content(x) is Members
}

/// The value describes a model: its label and its limits.
pub open spec fn describes_model(v: serde_json::Value, e: EntryView) -> bool {
    json_content(v) matches JsonView::Members(m) && {
        &&& m.dom() == set!["name"@, "limit"@]
        &&& json_content(m["name"@]) == JsonView::Text(e.label)
        &&& json_content(m["limit"@]) matches JsonView::Members(l) && {
            &&& l.dom() == set!["context"@, "output"@]
            &&& json_content(l["context"@]) == JsonView::Number(Some(e.context as int))
            &&& json_content(l["output"@]) == JsonView::Number(Some(8192))
        }
    }
}

/// Some label among the first `n` has this key.
pub open spec fn labelled_key(entries: Seq<EntryView>, key: Seq<char>, n: int) -> bool {
    exists|i: int| 0 <= i < n && (#[trigger] entries[i]).key == key
}

/// The models after the first `n` labels were put in: a later label with the
/// same key counts, and other models stay.
pub open spec fn models_updated(
    before: Map<Seq<char>, serde_json::Value>,
    entries: Seq<EntryView>,
    after: Map<Seq<char>, serde_json::Value>,
    n: int,
) -> bool {
    &&& forall|k: Seq<char>| #[trigger]
        after.contains_key(k) == (before.contains_key(k) || labelled_key(entries, k, n))
    &&& forall|k: Seq<char>|
        before.contains_key(k) && !labelled_key(entries, k, n) ==> #[trigger] after[k] == before[k]
    &&& forall|i: int|
        0 <= i < n && (forall|j: int| i < j < n ==> (#[trigger] entries[j]).key != entries[i].key)
            ==> describes_model(after[(#[trigger] entries[i]).key], entries[i])
}

/// A provider that is set up anew, whatever its models.
pub open spec fn default_provider(m: Map<Seq<char>, serde_json::Value>) -> bool {
    &&& m.dom() == set!["npm"@, "name"@, "options"@, "models"@]
    &&& json_content(m["npm"@]) == JsonView::Text("@ai-sdk/openai-compatible"@)
    &&& json_content(m["name"@]) == JsonView::Text("llama.cpp local"@)
    &&& json_content(m["options"@]) matches JsonView::Members(o) && {
        &&& o.dom() == set!["baseURL"@, "apiKey"@]
        &&& json_content(o["baseURL"@]) == JsonView::Text("http://127.0.0.1:18080/v1"@)
        &&& json_content(o["apiKey"@]) == JsonView::Text("local"@)
    }
}

/// The entry of a map.
pub open spec fn entry(m: Map<Seq<char>, serde_json::Value>, key: Seq<char>) -> Option<
    serde_json::Value,
> {
    if m.contains_key(key) {
        Some(m[key])
    } else {
        None
    }
}

/// The value is an object like `m`, but for what it holds under `key`.
pub open spec fn changed_at(
    v: serde_json::Value,
    m: Map<Seq<char>, serde_json::Value>,
    key: Seq<char>,
) -> bool {
    json_content(v) matches JsonView::Members(n) && n.contains_key(key) && n == m.insert(
        key,
        n[key],
    )
}

/// `after` is `before` with the labels put in, among the models of the
/// provider `llamacpp`, which is set up anew where there is none. Everything
/// else stays.
pub open spec fn updated(
    before: serde_json::Value,
    entries: Seq<EntryView>,
    after: serde_json::Value,
) -> bool {
    let root = members_or_none(Some(before));
    let providers = members_or_none(member_of(before, "provider"@));
    let found = entry(providers, "llamacpp"@);
    let provider = members_or_none(Some(after))["provider"@];
    let llamacpp = members_or_none(Some(provider))["llamacpp"@];
    let settings = members_or_none(Some(llamacpp));
    let models = settings["models"@];
    &&& changed_at(after, root, "provider"@)
    &&& changed_at(provider, providers, "llamacpp"@)
    &&& if is_members(found) {
        changed_at(llamacpp, members_or_none(found), "models"@)
    } else {
        json_content(llamacpp) is Members && default_provider(settings)
    }
    &&& json_content(models) is Members
    &&& models_updated(
        if is_members(found) {
            members_or_none(entry(members_or_none(found), "models"@))
        } else {
            Map::empty()
        },
        entries,
        members_or_none(Some(models)),
        entries.len() as int,
    )
}

fn model_value(label: &str, context: u64) -> (r: serde_json::Value)
    ensures
        forall|e: EntryView|
            e.label == label@ && e.context == context ==> #[trigger] describes_model(r, e),
{
    proof {
        reveal_strlit("name");
        reveal_strlit("limit");
        reveal_strlit("context");
        reveal_strlit("output");
        assert("name"@.len() != "limit"@.len());
        assert("context"@.len() != "output"@.len());
    }
    let mut limit = json::empty_object();
    json::set_member(&mut limit, "context", json::number_value(context));
    json::set_member(&mut limit, "output", json::number_value(8192));
    let mut r = json::empty_object();
    json::set_member(&mut r, "name", json::text_value(label));
    json::set_member(&mut r, "limit", limit);
    proof {
        let l = json_content(limit)->Members_0;
        let m = json_content(r)->Members_0;
        assert(l.dom() =~= set!["context"@, "output"@]);
        assert(m.dom() =~= set!["name"@, "limit"@]);
    }
    r
}

fn provider_value() -> (r: serde_json::Value)
    ensures
        json_content(r) matches JsonView::Members(m) && default_provider(m) && json_content(
            m["models"@],
        ) == JsonView::Members(Map::empty()),
{
    proof {
        reveal_strlit("npm");
        reveal_strlit("name");
        reveal_strlit("options");
        reveal_strlit("models");
        reveal_strlit("baseURL");
        reveal_strlit("apiKey");
        assert("npm"@.len() == 3 && "name"@.len() == 4 && "options"@.len() == 7 && "models"@.len()
            == 6);
        assert("baseURL"@.len() == 7 && "apiKey"@.len() == 6);
    }
    let mut options = json::empty_object();
    json::set_member(&mut options, "baseURL", json::text_value("http://127.0.0.1:18080/v1"));
    json::set_member(&mut options, "apiKey", json::text_value("local"));
    let mut r = json::empty_object();
    json::set_member(&mut r, "npm", json::text_value("@ai-sdk/openai-compatible"));
    json::set_member(&mut r, "name", json::text_value("llama.cpp local"));
    json::set_member(&mut r, "options", options);
    json::set_member(&mut r, "models", json::empty_object());
    proof {
        let o = json_content(options)->Members_0;
        let m = json_content(r)->Members_0;
        assert(o.dom() =~= set!["baseURL"@, "apiKey"@]);
        assert(m.dom() =~= set!["npm"@, "name"@, "options"@, "models"@]);
    }
    r
}

/// The member with this key where it is an object, or else an empty object.
fn object_member(v: &serde_json::Value, key: &str) -> (r: serde_json::Value)
    ensures
        json_content(r) == JsonView::Members(members_or_none(member_of(*v, key@))),
{
    match json::member(v, key) {
        Some(x) => if json::is_object(&x) {
            x
        } else {
            json::empty_object()
        },
        None => json::empty_object(),
    }
}

fn insert_models(models: &mut serde_json::Value, entries: &Vec<OpencodeEntry>)
    requires
        json_content(*old(models)) is Members,
    ensures
        json_content(*final(models)) matches JsonView::Members(m) && models_updated(
            json_content(*old(models))->Members_0,
            views(entries@),
            m,
            entries@.len() as int,
        ),
{
    let ghost before = json_content(*models)->Members_0;
    let ghost all = views(entries@);
    for i in 0..entries.len()
        invariant
            all == views(entries@),
            json_content(*models) is Members,
            models_updated(before, all, json_content(*models)->Members_0, i as int),
    {
        let ghost m = json_content(*models)->Members_0;
        let e = &entries[i];
        let v = model_value(e.label.as_str(), e.context);
        json::set_member(models, e.key.as_str(), v);
        proof {
            let after = json_content(*models)->Members_0;
            assert(after == m.insert(e.key@, v));
            assert(all[i as int] == e@);
            assert(describes_model(v, e@));
            assert forall|k: Seq<char>| #[trigger]
                after.contains_key(k) == (before.contains_key(k) || labelled_key(
                    all,
                    k,
                    i + 1,
                )) by {
                assert(m.contains_key(k) == (before.contains_key(k) || labelled_key(
                    all,
                    k,
                    i as int,
                )));
                label_grows(all, k, i as int);
            }
            assert forall|k: Seq<char>|
                before.contains_key(k) && !labelled_key(all, k, i + 1) implies #[trigger] after[k]
                == before[k] by {
                label_grows(all, k, i as int);
                assert(m[k] == before[k]);
            }
            assert forall|a: int|
                0 <= a < i + 1 && (forall|j: int|
                    a < j < i + 1 ==> (#[trigger] all[j]).key != all[a].key) implies describes_model(
                after[(#[trigger] all[a]).key],
                all[a],
            ) by {
                if a < i {
                    assert(all[i as int].key != all[a].key);
                    assert(describes_model(m[all[a].key], all[a]));
                }
            }
        }
    }
}

proof fn label_grows(all: Seq<EntryView>, k: Seq<char>, i: int)
    requires
        0 <= i < all.len(),
    ensures
        labelled_key(all, k, i + 1) == (labelled_key(all, k, i) || all[i].key == k),
{
    if labelled_key(all, k, i + 1) && all[i].key != k {
        let j = choose|j: int| 0 <= j < i + 1 && (#[trigger] all[j]).key == k;
        assert(j < i);
    }
    if labelled_key(all, k, i) {
        let j = choose|j: int| 0 <= j < i && (#[trigger] all[j]).key == k;
        assert(all[j].key == k);
    }
}

/// The configuration with the labels put in.
pub fn update_opencode_value(config: &serde_json::Value, entries: &Vec<OpencodeEntry>) -> (r:
    serde_json::Value)
    requires
        json_content(*config) is Members || json_content(*config) is Null,
    ensures
        updated(*config, views(entries@), r),
{
    let mut provider = object_member(config, "provider");
    let ghost providers = json_content(provider)->Members_0;
    let mut llamacpp = match json::member(&provider, "llamacpp") {
        Some(x) => if json::is_object(&x) {
            x
        } else {
            provider_value()
        },
        None => provider_value(),
    };
    let ghost base = json_content(llamacpp)->Members_0;
    let mut models = object_member(&llamacpp, "models");
    insert_models(&mut models, entries);
    let ghost m = models;
    json::set_member(&mut llamacpp, "models", models);
    let ghost l = llamacpp;
    json::set_member(&mut provider, "llamacpp", llamacpp);
    let ghost p = provider;
    let mut r = root_object(config);
    json::set_member(&mut r, "provider", provider);
    proof {
        let root = members_or_none(Some(*config));
        assert(members_or_none(Some(r)) =~= root.insert("provider"@, p));
        assert(members_or_none(Some(p)) =~= providers.insert("llamacpp"@, l));
        assert(members_or_none(Some(l)) =~= base.insert("models"@, m));
        reveal_strlit("npm");
        reveal_strlit("name");
        reveal_strlit("options");
        reveal_strlit("models");
        assert("npm"@.len() == 3 && "name"@.len() == 4 && "options"@.len() == 7 && "models"@.len()
            == 6);
        if !is_members(entry(providers, "llamacpp"@)) {
            assert(base.insert("models"@, m).dom() =~= base.dom());
        }
    }
    r
}

/// A copy of the configuration, an empty one for null.
fn root_object(config: &serde_json::Value) -> (r: serde_json::Value)
    requires
        json_content(*config) is Members || json_content(*config) is Null,
    ensures
        json_content(r) == JsonView::Members(members_or_none(Some(*config))),
{
    if json::is_null(config) {
        json::empty_object()
    } else {
        json::copy(config)
    }
}

/// The text of a configuration with the labels put in. One that is neither an
/// object nor null has no place for them. Reading the text gives the updated
/// configuration back, where its numbers are kept as whole numbers; a fraction
/// can come back changed.
pub fn update_opencode_json(existing: &str, entries: &Vec<OpencodeEntry>) -> (r: Result<
    String,
    OpencodeError,
>)
    ensures
        match json_parsed(existing@) {
            None => r matches Err(OpencodeError::InvalidJson(_)),
            Some(config) => if json_content(config) is Members || json_content(config) is Null {
                exists|after: serde_json::Value| #[trigger]
                    updated(config, views(entries@), after) && (r matches Ok(t) && t@
                        == json_pretty(after) + "\n"@ && (whole(config, read_depth()) ==> json_parsed(t@)
                        == Some(after)))
            } else {
                r matches Err(OpencodeError::NotAnObject)
            },
        },
{
    let config = match json::parse(existing) {
        Ok(v) => v,
        Err(e) => {
            return Err(OpencodeError::InvalidJson(e));
        },
    };
    if !json::is_object(&config) && !json::is_null(&config) {
        return Err(OpencodeError::NotAnObject);
    }
    let after = update_opencode_value(&config, entries);
    proof {
        whole_values_are_plain(config, read_depth());
        if whole(config, read_depth()) {
            updates_stay_plain(config, views(entries@), after, read_depth());
        }
    }
    match json::pretty(&after) {
        Ok(s) => {
            let mut t = s;
            t.append("\n");
            proof {
                assert(updated(config, views(entries@), after));
            }
            Ok(t)
        },
        Err(e) => Err(OpencodeError::InvalidJson(e)),
    }
}

proof fn models_are_plain(v: serde_json::Value, e: EntryView, depth: nat)
    requires
        describes_model(v, e),
        depth >= 2,
    ensures
        plain(v, depth),
{
    let m = json_content(v)->Members_0;
    assert forall|k: Seq<char>| #[trigger] m.contains_key(k) implies plain(m[k], (depth - 1) as nat) by {
        assert(m.dom().contains(k));
        if k == "limit"@ {
            let l = json_content(m[k])->Members_0;
            assert forall|j: Seq<char>| #[trigger] l.contains_key(j) implies plain(
                l[j],
                (depth - 2) as nat,
            ) by {
                assert(l.dom().contains(j));
            }
        }
    }
}

proof fn last_label(entries: Seq<EntryView>, k: Seq<char>, n: int) -> (i: int)
    requires
        0 <= n <= entries.len(),
        labelled_key(entries, k, n),
    ensures
        0 <= i < n,
        entries[i].key == k,
        forall|j: int| i < j < n ==> (#[trigger] entries[j]).key != k,
    decreases n,
{
    if entries[n - 1].key == k {
        n - 1
    } else {
        let j = choose|j: int| 0 <= j < n && (#[trigger] entries[j]).key == k;
        assert(labelled_key(entries, k, n - 1));
        last_label(entries, k, n - 1)
    }
}

/// An update keeps a configuration plain.
pub proof fn updates_stay_plain(
    before: serde_json::Value,
    entries: Seq<EntryView>,
    after: serde_json::Value,
    depth: nat,
)
    requires
        updated(before, entries, after),
        plain(before, depth),
        depth >= 6,
    ensures
        plain(after, depth),
{
    let root = members_or_none(Some(before));
    let old_provider = member_of(before, "provider"@);
    let providers = members_or_none(old_provider);
    let found = entry(providers, "llamacpp"@);
    let provider = members_or_none(Some(after))["provider"@];
    let llamacpp = members_or_none(Some(provider))["llamacpp"@];
    let settings = members_or_none(Some(llamacpp));
    let models = settings["models"@];
    let old_models = if is_members(found) {
        members_or_none(entry(members_or_none(found), "models"@))
    } else {
        Map::empty()
    };
    assert forall|k: Seq<char>| #[trigger] root.contains_key(k) implies plain(
        root[k],
        (depth - 1) as nat,
    ) by {}
    assert forall|k: Seq<char>| #[trigger] providers.contains_key(k) implies plain(
        providers[k],
        (depth - 2) as nat,
    ) by {
        assert(plain(root["provider"@], (depth - 1) as nat));
    }
    if is_members(found) {
        assert(plain(providers["llamacpp"@], (depth - 2) as nat));
    }
    assert forall|k: Seq<char>| #[trigger] old_models.contains_key(k) implies plain(
        old_models[k],
        (depth - 4) as nat,
    ) by {
        assert(plain(members_or_none(found)["models"@], (depth - 3) as nat));
    }
    let all = members_or_none(Some(models));
    assert(plain(models, (depth - 3) as nat)) by {
        assert forall|k: Seq<char>| #[trigger] all.contains_key(k) implies plain(
            all[k],
            (depth - 4) as nat,
        ) by {
            if labelled_key(entries, k, entries.len() as int) {
                let i = last_label(entries, k, entries.len() as int);
                assert(describes_model(all[entries[i].key], entries[i]));
                models_are_plain(all[k], entries[i], (depth - 4) as nat);
            } else {
                assert(all[k] == old_models[k]);
                assert(plain(old_models[k], (depth - 4) as nat));
            }
        }
    }
    assert(plain(llamacpp, (depth - 2) as nat)) by {
        assert forall|k: Seq<char>| #[trigger] settings.contains_key(k) implies plain(
            settings[k],
            (depth - 3) as nat,
        ) by {
            if k == "models"@ {
            } else if is_members(found) {
                assert(members_or_none(found).contains_key(k));
                assert(plain(members_or_none(found)[k], (depth - 3) as nat));
            } else {
                assert(settings.dom().contains(k));
                if k == "options"@ {
                    let o = json_content(settings[k])->Members_0;
                    assert forall|j: Seq<char>| #[trigger] o.contains_key(j) implies plain(
                        o[j],
                        (depth - 4) as nat,
                    ) by {
                        assert(o.dom().contains(j));
                    }
                }
            }
        }
    }
    assert(plain(provider, (depth - 1) as nat)) by {
        let m = members_or_none(Some(provider));
        assert forall|k: Seq<char>| #[trigger] m.contains_key(k) implies plain(
            m[k],
            (depth - 2) as nat,
        ) by {
            if k != "llamacpp"@ {
                assert(providers.contains_key(k) && m[k] == providers[k]);
                assert(plain(providers[k], (depth - 2) as nat));
            }
        }
    }
    let m = members_or_none(Some(after));
    assert forall|k: Seq<char>| #[trigger] m.contains_key(k) implies plain(
        m[k],
        (depth - 1) as nat,
    ) by {
        if k != "provider"@ {
            assert(root.contains_key(k) && m[k] == root[k]);
            assert(plain(root[k], (depth - 1) as nat));
        }
    }
}

/// An update keeps every other setting: of the configuration, of the
/// providers, and of the provider `llamacpp` where there is one; and it keeps
/// every model that no label names.
pub proof fn updates_keep_other_settings(
    before: serde_json::Value,
    entries: Seq<EntryView>,
    after: serde_json::Value,
)
    requires
        updated(before, entries, after),
    ensures
        forall|k: Seq<char>|
            k != "provider"@ ==> #[trigger] member_of(after, k) == (if members_or_none(
                Some(before),
            ).contains_key(k) {
                Some(members_or_none(Some(before))[k])
            } else {
                None
            }),
        member_of(after, "provider"@) matches Some(p) && {
            let old_providers = members_or_none(member_of(before, "provider"@));
            &&& forall|k: Seq<char>|
                k != "llamacpp"@ ==> #[trigger] member_of(p, k) == (if old_providers.contains_key(
                    k,
                ) {
                    Some(old_providers[k])
                } else {
                    None
                })
            &&& member_of(p, "llamacpp"@) matches Some(l) && is_members(Some(l))
            &&& old_providers.contains_key("llamacpp"@) && is_members(
                Some(old_providers["llamacpp"@]),
            ) ==> {
                let old_llamacpp = old_providers["llamacpp"@];
                let l = member_of(p, "llamacpp"@)->0;
                &&& forall|k: Seq<char>|
                    k != "models"@ ==> #[trigger] member_of(l, k) == member_of(old_llamacpp, k)
                &&& forall|k: Seq<char>|
                    members_or_none(member_of(old_llamacpp, "models"@)).contains_key(k)
                        && !labelled_key(entries, k, entries.len() as int) ==> #[trigger] member_of(
                        member_of(l, "models"@)->0,
                        k,
                    ) == Some(members_or_none(member_of(old_llamacpp, "models"@))[k])
            }
        },
{
    let provider = members_or_none(Some(after))["provider"@];
    let llamacpp = members_or_none(Some(provider))["llamacpp"@];
    assert(member_of(after, "provider"@) == Some(provider));
    assert(member_of(provider, "llamacpp"@) == Some(llamacpp));
}

// ---------------------------------------------------------------------------
// Labels

/// What a label says: the model, its quantisation where the name does not tell
/// it, and the profile.
pub open spec fn label_of(m: MetadataView, profile_id: Seq<char>) -> Seq<char> {
    let name = shown_name(m);
    let full = match m.quant {
        Some(quant) => if text::occurs(text::uppered(name), quant) {
            name
        } else {
            name + " "@ + quant
        },
        None => name,
    };
    full + " ("@ + profile_id + ")"@
}

/// What a label says.
pub fn model_label_for_opencode(metadata: &GgufMetadata, profile_id: &str) -> (r: String)
    ensures
        r@ == label_of(metadata@, profile_id@),
{
    let mut label = metadata.display_name();
    if let Some(quant) = &metadata.quant {
        if !text::contains(text::uppercase(label.as_str()).as_str(), quant.as_str()) {
            label.append(" ");
            label.append(quant.as_str());
        }
    }
    label.append(" (");
    label.append(profile_id);
    label.append(")");
    label
}

/// Letters and digits in lower case, and hyphens for everything else.
pub open spec fn slug_chars(s: Seq<char>) -> Seq<char> {
    Seq::new(
        s.len(),
        |i: int|
            if text::is_alphanumeric(text::lower_char(s[i])) {
                text::lower_char(s[i])
            } else {
                '-'
            },
    )
}

/// The pieces that are not empty, up to six.
pub open spec fn slug_pieces(pieces: Seq<Seq<char>>) -> Seq<Seq<char>>
    decreases pieces.len(),
{
    if pieces.len() == 0 {
        seq![]
    } else {
        let before = slug_pieces(pieces.drop_last());
        if pieces.last().len() == 0 || before.len() >= 6 {
            before
        } else {
            before.push(pieces.last())
        }
    }
}

/// The key of a label: up to six words of the name, and the profile.
pub open spec fn key_of(m: MetadataView, profile_id: Seq<char>) -> Seq<char> {
    text::joined(slug_pieces(text::split(slug_chars(shown_name(m)), '-')), "-"@) + "-"@
        + profile_id
}

/// The key of a label.
pub fn model_key_for_opencode(metadata: &GgufMetadata, profile_id: &str) -> (r: String)
    ensures
        r@ == key_of(metadata@, profile_id@),
{
    let name = metadata.display_name();
    let lower = text::to_chars(text::lowercase(name.as_str()).as_str());
    let mut slug = String::new();
    for i in 0..lower.len()
        invariant
            lower@ == text::lowered(name@),
            slug@ == slug_chars(name@).take(i as int),
    {
        let c = lower[i];
        proof {
            assert(c == text::lower_char(name@[i as int]));
            assert(slug_chars(name@).take(i + 1) =~= slug_chars(name@).take(i as int).push(
                slug_chars(name@)[i as int],
            ));
        }
        if text::alphanumeric(c) {
            slug.push(c);
        } else {
            slug.push('-');
        }
    }
    proof {
        assert(slug_chars(name@).take(name@.len() as int) =~= slug_chars(name@));
    }
    let pieces = text::split_at_char(slug.as_str(), '-');
    let ghost all = text::texts(pieces@);
    let mut kept: Vec<String> = Vec::new();
    proof {
        assert(text::texts(kept@) =~= slug_pieces(all.take(0)));
    }
    for i in 0..pieces.len()
        invariant
            all == text::texts(pieces@),
            text::texts(kept@) == slug_pieces(all.take(i as int)),
    {
        let ghost before = text::texts(kept@);
        proof {
            assert(all.take(i + 1).drop_last() =~= all.take(i as int));
            assert(all.take(i + 1).last() == pieces@[i as int]@);
            assert(before.len() == kept@.len());
        }
        if !pieces[i].as_str().is_empty() && kept.len() < 6 {
            kept.push(pieces[i].clone());
            proof {
                assert(text::texts(kept@) =~= before.push(pieces@[i as int]@));
            }
        }
    }
    proof {
        assert(all.take(all.len() as int) =~= all);
    }
    let mut r = text::join(&kept, "-");
    r.append("-");
    r.append(profile_id);
    r
}

/// The labels for one model, one for each profile.
pub open spec fn entries_of_model(m: MetadataView, r: RecommendationsView) -> Seq<EntryView> {
    Seq::new(
        r.profiles.len(),
        |i: int|
            EntryView {
                key: key_of(m, r.profiles[i].id),
                label: label_of(m, r.profiles[i].id),
                context: r.profiles[i].requested_context,
            },
    )
}

/// The labels for several models.
pub open spec fn entries_of(models: Seq<(MetadataView, RecommendationsView)>) -> Seq<EntryView>
    decreases models.len(),
{
    if models.len() == 0 {
        seq![]
    } else {
        entries_of(models.drop_last()) + entries_of_model(models.last().0, models.last().1)
    }
}

/// The labels for the profiles of several models, each with the context that
/// its profile was validated with.
pub fn opencode_entries(profiled: &Vec<(GgufMetadata, RecommendationFile)>) -> (r: Vec<
    OpencodeEntry,
>)
    ensures
        views(r@) == entries_of(views(profiled@)),
{
    let ghost all = views(profiled@);
    let mut r: Vec<OpencodeEntry> = Vec::new();
    proof {
        assert(views(r@) =~= entries_of(all.take(0)));
    }
    for i in 0..profiled.len()
        invariant
            all == views(profiled@),
            views(r@) == entries_of(all.take(i as int)),
    {
        let ghost done = views(r@);
        let (metadata, recs) = (&profiled[i].0, &profiled[i].1);
        let ghost here = entries_of_model(metadata@, recs@);
        proof {
            assert(all.take(i + 1).drop_last() =~= all.take(i as int));
            assert(all.take(i + 1).last() == (metadata@, recs@));
            assert(done + here.take(0) =~= done);
        }
        for k in 0..recs.profiles.len()
            invariant
                here == entries_of_model(metadata@, recs@),
                views(r@) == done + here.take(k as int),
        {
            let ghost before = views(r@);
            let profile = &recs.profiles[k];
            proof {
                assert(recs@.profiles[k as int] == profile@);
            }
            let e = OpencodeEntry {
                key: model_key_for_opencode(metadata, profile.id.as_str()),
                label: model_label_for_opencode(metadata, profile.id.as_str()),
                context: profile.requested_context,
            };
            r.push(e);
            proof {
                assert(views(r@) =~= before.push(e@));
                assert(e@ =~= here[k as int]);
                assert(done + here.take(k + 1) =~= before.push(here[k as int]));
            }
        }
        proof {
            assert(here.take(here.len() as int) =~= here);
        }
    }
    proof {
        assert(all.take(all.len() as int) =~= all);
    }
    r
}

/// A model is listed once for each profile, under a name that ends in the
/// profile's and starts with the model's, and with the context that was measured.
pub proof fn entries_tell_the_profiles(m: MetadataView, r: RecommendationsView, i: int)
    requires
        0 <= i < r.profiles.len(),
    ensures
        entries_of_model(m, r).len() == r.profiles.len(),
        entries_of_model(m, r)[i].context == r.profiles[i].requested_context,
        ({
            let label = entries_of_model(m, r)[i].label;
            let tail = " ("@ + r.profiles[i].id + ")"@;
            &&& m.quant is None && m.name is Some ==> label == m.name->0 + tail
            &&& m.quant is Some && m.name is Some && !text::occurs(
                text::uppered(m.name->0),
                m.quant->0,
            ) ==> label == m.name->0 + " "@ + m.quant->0 + tail
            &&& m.quant is Some && m.name is Some && text::occurs(
                text::uppered(m.name->0),
                m.quant->0,
            ) ==> label == m.name->0 + tail
        }),
        ({
            let key = entries_of_model(m, r)[i].key;
            let tail = "-"@ + r.profiles[i].id;
            &&& key.len() >= tail.len()
            &&& key.skip(key.len() - tail.len()) == tail
        }),
{
    let label = entries_of_model(m, r)[i].label;
    let tail = " ("@ + r.profiles[i].id + ")"@;
    if let Some(name) = m.name {
        assert(name + " ("@ + r.profiles[i].id + ")"@ =~= name + tail);
        if let Some(quant) = m.quant {
            assert(name + " "@ + quant + " ("@ + r.profiles[i].id + ")"@ =~= name + " "@ + quant
                + tail);
        }
    }
    let key = entries_of_model(m, r)[i].key;
    let end = "-"@ + r.profiles[i].id;
    assert(key.skip(key.len() - end.len()) =~= end);
}

/// What an update writes can be found: the entry of a key, where no later one has
/// the same key, with its label, its context and 8192 tokens of output.
pub proof fn updates_write_the_entries(
    before: serde_json::Value,
    entries: Seq<EntryView>,
    after: serde_json::Value,
    i: int,
)
    requires
        updated(before, entries, after),
        0 <= i < entries.len(),
        forall|j: int| i < j < entries.len() ==> (#[trigger] entries[j]).key != entries[i].key,
    ensures
        ({
            let provider = json_content(after)->Members_0["provider"@];
            let llamacpp = json_content(provider)->Members_0["llamacpp"@];
            let models = json_content(llamacpp)->Members_0["models"@];
            let model = json_content(models)->Members_0[entries[i].key];
            let limit = json_content(model)->Members_0["limit"@];
            &&& json_content(after) is Members
            &&& json_content(provider) is Members
            &&& json_content(llamacpp) is Members
            &&& json_content(models) is Members
            &&& json_content(models)->Members_0.contains_key(entries[i].key)
            &&& json_content(json_content(model)->Members_0["name"@]) == JsonView::Text(
                entries[i].label,
            )
            &&& json_content(json_content(limit)->Members_0["context"@]) == JsonView::Number(
                Some(entries[i].context as int),
            )
            &&& json_content(json_content(limit)->Members_0["output"@]) == JsonView::Number(
                Some(8192),
            )
        }),
{
    assert(labelled_key(entries, entries[i].key, entries.len() as int));
}

} // verus!
