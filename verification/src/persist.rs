//! Writing tuning results back to the settings file, as text.

use crate::profile::{GpuProfile, Profiles};
use vstd::prelude::*;
use vstd::string::*;

verus! {

/// A TOML value.
#[verifier::external_type_specification]
#[verifier::external_body]
pub struct ExTomlValue(toml::Value);

/// A TOML table.
#[verifier::external_type_specification]
#[verifier::external_body]
#[verifier::reject_recursive_types(K)]
#[verifier::reject_recursive_types(V)]
pub struct ExTomlMap<K, V>(toml::map::Map<K, V>);

/// The error of reading TOML.
#[verifier::external_type_specification]
#[verifier::external_body]
pub struct ExTomlReadError(toml::de::Error);

/// The error of writing TOML.
#[verifier::external_type_specification]
#[verifier::external_body]
pub struct ExTomlWriteError(toml::ser::Error);

/// The value that TOML text stands for, where it is that.
pub uninterp spec fn toml_value(text: Seq<char>) -> Option<toml::Value>;

/// The TOML text that a value is written as, where it can be written.
pub uninterp spec fn toml_text(v: toml::Value) -> Option<Seq<char>>;

/// What a table holds, under each key.
pub uninterp spec fn table_entries(t: toml::map::Map<String, toml::Value>) -> Map<
    Seq<char>,
    toml::Value,
>;

/// What a value that is a table holds; nothing where it is none.
pub uninterp spec fn value_entries(v: toml::Value) -> Option<Map<Seq<char>, toml::Value>>;

/// The number of an integer; nothing where the value is none.
pub uninterp spec fn value_integer(v: toml::Value) -> Option<i64>;

/// The characters of a string; nothing where the value is none.
pub uninterp spec fn value_string(v: toml::Value) -> Option<Seq<char>>;

/// `toml::from_str`, into a `Value`: what comes out, and whether it fails,
/// depends on the text alone.
#[verifier::external_body]
fn read_toml(text: &str) -> (r: Result<toml::Value, toml::de::Error>)
    ensures
        match r {
            Ok(v) => toml_value(text@) == Some(v),
            Err(_) => toml_value(text@) is None,
        },
{
    toml::from_str(text)
}

/// `toml::to_string_pretty`: what comes out, and whether it fails, depends on
/// the value alone.
#[verifier::external_body]
fn write_toml(v: &toml::Value) -> (r: Result<String, toml::ser::Error>)
    ensures
        match r {
            Ok(t) => toml_text(*v) == Some(t@),
            Err(_) => toml_text(*v) is None,
        },
{
    toml::to_string_pretty(v)
}

/// `Value::get_mut` with a string: the entry of a table under that key, to be
/// changed in place, and nothing where there is none or the value is no table.
#[verifier::external_body]
fn entry_mut<'a>(v: &'a mut toml::Value, key: &str) -> (r: Option<&'a mut toml::Value>)
    ensures
        r is None ==> *final(v) == *old(v) && (value_entries(*old(v)) is None || !value_entries(
            *old(v),
        )->0.dom().contains(key@)),
        r matches Some(e) ==> value_entries(*old(v)) is Some && value_entries(
            *old(v),
        )->0.dom().contains(key@) && *e == value_entries(*old(v))->0[key@] && value_entries(
            *final(v),
        ) == Some(value_entries(*old(v))->0.insert(key@, *final(e))),
        r matches Some(e) ==> *final(e) == *e ==> *final(v) == *old(v),
{
    v.get_mut(key)
}

/// `Value::as_table_mut`: the table that a value is, to be changed in place, and
/// nothing where it is none.
#[verifier::external_body]
fn table_mut(v: &mut toml::Value) -> (r: Option<&mut toml::map::Map<String, toml::Value>>)
    ensures
        r is None ==> *final(v) == *old(v) && value_entries(*old(v)) is None,
        r matches Some(t) ==> value_entries(*old(v)) == Some(table_entries(*t)) && value_entries(
            *final(v),
        ) == Some(table_entries(*final(t))),
{
    v.as_table_mut()
}

/// `Table::new`: an empty table.
#[verifier::external_body]
fn empty_table() -> (t: toml::map::Map<String, toml::Value>)
    ensures
        table_entries(t).dom() == Set::<Seq<char>>::empty(),
{
    toml::map::Map::new()
}

/// `Table::insert`: the value stands under the key, in place of what stood
/// there.
#[verifier::external_body]
fn table_insert(t: &mut toml::map::Map<String, toml::Value>, key: &str, v: toml::Value)
    ensures
        table_entries(*final(t)) == table_entries(*old(t)).insert(key@, v),
{
    t.insert(key.to_owned(), v);
}

/// `Table::remove`: nothing stands under the key.
#[verifier::external_body]
fn table_remove(t: &mut toml::map::Map<String, toml::Value>, key: &str)
    ensures
        table_entries(*final(t)) == table_entries(*old(t)).remove(key@),
{
    t.remove(key);
}

/// `Value::Integer`: the value that is that number.
#[verifier::external_body]
fn integer_value(n: i64) -> (v: toml::Value)
    ensures
        value_integer(v) == Some(n),
{
    toml::Value::Integer(n)
}

/// `Value::String`: the value that is those characters.
#[verifier::external_body]
fn string_value(t: &str) -> (v: toml::Value)
    ensures
        value_string(v) == Some(t@),
{
    toml::Value::String(t.to_owned())
}

/// `Value::Table`: the value that is that table.
#[verifier::external_body]
fn table_value(t: toml::map::Map<String, toml::Value>) -> (v: toml::Value)
    ensures
        value_entries(v) == Some(table_entries(t)),
{
    toml::Value::Table(t)
}

/// Why tuning results cannot be written back.
pub enum PersistError {
    /// The settings are no TOML.
    BadToml(toml::de::Error),
    /// The settings have no `gpu` table.
    NoGpuSection,
    /// The changed settings cannot be written.
    Unwritable(toml::ser::Error),
}

/// That the settings have no `gpu` table.
#[derive(Clone, Copy)]
pub struct NoGpuSection;

impl NoGpuSection {
    /// The error in words.
    pub fn message(&self) -> (t: String)
        ensures
            t@ == "config.toml 缺少 [gpu] 段"@,
    {
        "config.toml 缺少 [gpu] 段".to_owned()
    }
}

/// What the `gpu` table of the settings holds, where there is one.
pub open spec fn gpu_entries(doc: toml::Value) -> Option<Map<Seq<char>, toml::Value>> {
    match value_entries(doc) {
        Some(m) => if m.dom().contains("gpu"@) {
            value_entries(m["gpu"@])
        } else {
            None
        },
        None => None,
    }
}

/// Whether `after` is `before` but for its `gpu` table.
pub open spec fn only_gpu_differs(before: toml::Value, after: toml::Value) -> bool {
    &&& value_entries(before) is Some
    &&& value_entries(after) is Some
    &&& value_entries(after)->0.remove("gpu"@) == value_entries(before)->0.remove("gpu"@)
}

/// Whether a value is a profile: a table of its batch size and its depth.
pub open spec fn is_profile(v: toml::Value, p: GpuProfile) -> bool {
    &&& value_entries(v) is Some
    &&& value_entries(v)->0.dom() == set!["batch_size"@, "pipeline_depth"@]
    &&& value_integer(value_entries(v)->0["batch_size"@]) == Some(p.batch_size as i64)
    &&& value_integer(value_entries(v)->0["pipeline_depth"@]) == Some(p.pipeline_depth as i64)
}

/// Whether a value is a table of exactly the given profiles.
pub open spec fn are_profiles(v: toml::Value, profiles: Map<Seq<char>, GpuProfile>) -> bool {
    &&& value_entries(v) is Some
    &&& hold_profiles(value_entries(v)->0, profiles)
}

/// Whether entries are exactly the given profiles.
pub open spec fn hold_profiles(
    m: Map<Seq<char>, toml::Value>,
    profiles: Map<Seq<char>, GpuProfile>,
) -> bool {
    &&& m.dom() == profiles.dom()
    &&& forall|fp: Seq<char>| #[trigger]
        profiles.dom().contains(fp) ==> is_profile(m[fp], profiles[fp])
}

/// Whether `after` is `before` with the profiles written: they stand under
/// `profiles` of the `gpu` table, in place of what stood there, and the entries
/// of a single device are gone.
pub open spec fn profiles_written(
    before: toml::Value,
    after: toml::Value,
    profiles: Map<Seq<char>, GpuProfile>,
) -> bool {
    &&& only_gpu_differs(before, after)
    &&& gpu_entries(before) is Some
    &&& gpu_entries(after) is Some
    &&& gpu_entries(after)->0.dom().contains("profiles"@)
    &&& are_profiles(gpu_entries(after)->0["profiles"@], profiles)
    &&& gpu_entries(after)->0.remove("profiles"@) == gpu_entries(before)->0.remove(
        "profiles"@,
    ).remove("batch_size"@).remove("pipeline_depth"@).remove("fingerprint"@)
}

/// The value that stands for a profile.
fn profile_value(p: &GpuProfile) -> (v: toml::Value)
    ensures
        is_profile(v, *p),
{
    let mut t = empty_table();
    table_insert(&mut t, "batch_size", integer_value(p.batch_size as i64));
    table_insert(&mut t, "pipeline_depth", integer_value(p.pipeline_depth as i64));
    let v = table_value(t);
    proof {
        reveal_strlit("batch_size");
        reveal_strlit("pipeline_depth");
        assert("batch_size"@.len() != "pipeline_depth"@.len());
        assert(value_entries(v)->0.dom() =~= set!["batch_size"@, "pipeline_depth"@]);
    }
    v
}

/// The value that stands for all profiles.
fn profiles_value(profiles: &Profiles) -> (v: toml::Value)
    requires
        profiles.wf(),
    ensures
        are_profiles(v, profiles@),
{
    let mut t = empty_table();
    let mut i: usize = 0;
    while i < profiles.entries.len()
        invariant
            profiles.wf(),
            i <= profiles.entries@.len(),
            forall|fp: Seq<char>| #[trigger]
                table_entries(t).dom().contains(fp) ==> profiles@.dom().contains(fp) && is_profile(
                    table_entries(t)[fp],
                    profiles@[fp],
                ),
            forall|j: int|
                0 <= j < i ==> table_entries(t).dom().contains(
                    (#[trigger] profiles.entries@[j]).0@,
                ),
        decreases profiles.entries.len() - i,
    {
        proof {
            profiles.lemma_entry(i as int);
        }
        let v = profile_value(&profiles.entries[i].1);
        table_insert(&mut t, profiles.entries[i].0.as_str(), v);
        i = i + 1;
    }
    proof {
        assert forall|fp: Seq<char>| profiles@.dom().contains(fp) implies table_entries(
            t,
        ).dom().contains(fp) by {
            let j = choose|j: int| crate::profile::filed_at(profiles.entries@, fp, j);
            assert(profiles.entries@[j].0@ == fp);
        }
        assert(table_entries(t).dom() =~= profiles@.dom());
    }
    table_value(t)
}

/// Writes the profiles into settings.
pub fn write_profiles(doc: &mut toml::Value, profiles: &Profiles) -> (r: Result<(), NoGpuSection>)
    requires
        profiles.wf(),
    ensures
        r is Err <==> gpu_entries(*old(doc)) is None,
        r is Err ==> *final(doc) == *old(doc),
        r is Ok ==> profiles_written(*old(doc), *final(doc), profiles@),
{
    let r = match entry_mut(doc, "gpu") {
        Some(gpu) => match table_mut(gpu) {
            Some(t) => {
                table_insert(t, "profiles", profiles_value(profiles));
                table_remove(t, "batch_size");
                table_remove(t, "pipeline_depth");
                table_remove(t, "fingerprint");
                Ok(())
            },
            None => Err(NoGpuSection),
        },
        None => Err(NoGpuSection),
    };
    proof {
        if r is Ok {
            lemma_keys_differ();
            let (m, n) = (value_entries(*old(doc))->0, value_entries(*doc)->0);
            assert(n.remove("gpu"@) =~= m.remove("gpu"@));
            let (g, h) = (gpu_entries(*old(doc))->0, gpu_entries(*doc)->0);
            assert(h.remove("profiles"@) =~= g.remove("profiles"@).remove("batch_size"@).remove(
                "pipeline_depth"@,
            ).remove("fingerprint"@));
        }
    }
    r
}

/// The keys of the `gpu` table differ.
proof fn lemma_keys_differ()
    ensures
        "profiles"@ != "batch_size"@,
        "profiles"@ != "pipeline_depth"@,
        "profiles"@ != "fingerprint"@,
        "batch_size"@ != "pipeline_depth"@,
        "batch_size"@ != "fingerprint"@,
        "pipeline_depth"@ != "fingerprint"@,
{
    reveal_strlit("profiles");
    reveal_strlit("batch_size");
    reveal_strlit("pipeline_depth");
    reveal_strlit("fingerprint");
    assert("profiles"@.len() == 8);
    assert("batch_size"@.len() == 10);
    assert("pipeline_depth"@.len() == 14);
    assert("fingerprint"@.len() == 11);
}

/// The profiles written into the text of settings.
pub fn persist_profiles(raw: &str, profiles: &Profiles) -> (r: Result<String, PersistError>)
    requires
        profiles.wf(),
    ensures
        match toml_value(raw@) {
            Some(doc) => if gpu_entries(doc) is Some {
                exists|after: toml::Value| #[trigger]
                    profiles_written(doc, after, profiles@) && written_as(after, r)
            } else {
                r matches Err(PersistError::NoGpuSection)
            },
            None => r matches Err(PersistError::BadToml(_)),
        },
{
    let mut doc = match read_toml(raw) {
        Ok(doc) => doc,
        Err(e) => {
            return Err(PersistError::BadToml(e));
        },
    };
    let ghost before = doc;
    match write_profiles(&mut doc, profiles) {
        Ok(()) => {},
        Err(_) => {
            return Err(PersistError::NoGpuSection);
        },
    }
    assert(profiles_written(before, doc, profiles@));
    match write_toml(&doc) {
        Ok(t) => Ok(t),
        Err(e) => Err(PersistError::Unwritable(e)),
    }
}

/// Whether `r` is the text of changed settings, or says that there is none.
pub open spec fn written_as(after: toml::Value, r: Result<String, PersistError>) -> bool {
    match toml_text(after) {
        Some(t) => r is Ok && r->Ok_0@ == t,
        None => r matches Err(PersistError::Unwritable(_)),
    }
}

/// Whether `after` is `before` with the tuning result of a single device
/// written into its `gpu` table.
pub open spec fn tuning_written(
    before: toml::Value,
    after: toml::Value,
    p: GpuProfile,
    fingerprint: Seq<char>,
) -> bool {
    &&& only_gpu_differs(before, after)
    &&& gpu_entries(before) is Some
    &&& gpu_entries(after) is Some
    &&& gpu_entries(after)->0.dom() == gpu_entries(before)->0.dom().insert("batch_size"@).insert(
        "pipeline_depth"@,
    ).insert("fingerprint"@)
    &&& value_integer(gpu_entries(after)->0["batch_size"@]) == Some(p.batch_size as i64)
    &&& value_integer(gpu_entries(after)->0["pipeline_depth"@]) == Some(p.pipeline_depth as i64)
    &&& value_string(gpu_entries(after)->0["fingerprint"@]) == Some(fingerprint)
    &&& forall|k: Seq<char>| #[trigger]
        gpu_entries(before)->0.dom().contains(k) && k != "batch_size"@ && k != "pipeline_depth"@
            && k != "fingerprint"@ ==> gpu_entries(after)->0[k] == gpu_entries(before)->0[k]
}

/// Writes the tuning result of a single device into settings.
pub fn write_tuning(doc: &mut toml::Value, p: &GpuProfile, fingerprint: &str) -> (r: Result<
    (),
    NoGpuSection,
>)
    ensures
        r is Err <==> gpu_entries(*old(doc)) is None,
        r is Err ==> *final(doc) == *old(doc),
        r is Ok ==> tuning_written(*old(doc), *final(doc), *p, fingerprint@),
{
    let r = match entry_mut(doc, "gpu") {
        Some(gpu) => match table_mut(gpu) {
            Some(t) => {
                table_insert(t, "batch_size", integer_value(p.batch_size as i64));
                table_insert(t, "pipeline_depth", integer_value(p.pipeline_depth as i64));
                table_insert(t, "fingerprint", string_value(fingerprint));
                Ok(())
            },
            None => Err(NoGpuSection),
        },
        None => Err(NoGpuSection),
    };
    proof {
        if r is Ok {
            lemma_keys_differ();
            let (m, n) = (value_entries(*old(doc))->0, value_entries(*doc)->0);
            assert(n.remove("gpu"@) =~= m.remove("gpu"@));
            let (g, h) = (gpu_entries(*old(doc))->0, gpu_entries(*doc)->0);
            assert(h.dom() =~= g.dom().insert("batch_size"@).insert("pipeline_depth"@).insert(
                "fingerprint"@,
            ));
        }
    }
    r
}

/// The tuning result of a single device written into the text of settings.
pub fn persist_tuning(
    raw: &str,
    batch_size: u64,
    pipeline_depth: u32,
    fingerprint: &str,
) -> (r: Result<String, PersistError>)
    ensures
        match toml_value(raw@) {
            Some(doc) => if gpu_entries(doc) is Some {
                exists|after: toml::Value| #[trigger]
                    tuning_written(
                        doc,
                        after,
                        (GpuProfile { batch_size, pipeline_depth }),
                        fingerprint@,
                    ) && written_as(after, r)
            } else {
                r matches Err(PersistError::NoGpuSection)
            },
            None => r matches Err(PersistError::BadToml(_)),
        },
{
    let mut doc = match read_toml(raw) {
        Ok(doc) => doc,
        Err(e) => {
            return Err(PersistError::BadToml(e));
        },
    };
    let ghost before = doc;
    let p = GpuProfile { batch_size, pipeline_depth };
    match write_tuning(&mut doc, &p, fingerprint) {
        Ok(()) => {},
        Err(_) => {
            return Err(PersistError::NoGpuSection);
        },
    }
    assert(tuning_written(before, doc, p, fingerprint@));
    match write_toml(&doc) {
        Ok(t) => Ok(t),
        Err(e) => Err(PersistError::Unwritable(e)),
    }
}

/// Writing the profiles leaves every other setting alone, inside the `gpu` table
/// and outside it; and once they are written, nothing is left there of a single
/// device that could be taken over.
pub proof fn law_persisting_keeps_the_rest(
    before: toml::Value,
    after: toml::Value,
    profiles: Map<Seq<char>, GpuProfile>,
    key: Seq<char>,
)
    requires
        profiles_written(before, after, profiles),
    ensures
        key != "gpu"@ ==> value_entries(after)->0.dom().contains(key) == value_entries(
            before,
        )->0.dom().contains(key),
        key != "gpu"@ && value_entries(before)->0.dom().contains(key) ==> value_entries(
            after,
        )->0[key] == value_entries(before)->0[key],
        key != "profiles"@ && key != "batch_size"@ && key != "pipeline_depth"@ && key
            != "fingerprint"@ ==> gpu_entries(after)->0.dom().contains(key) == gpu_entries(
            before,
        )->0.dom().contains(key) && (gpu_entries(before)->0.dom().contains(key) ==> gpu_entries(
            after,
        )->0[key] == gpu_entries(before)->0[key]),
        !gpu_entries(after)->0.dom().contains("batch_size"@),
        !gpu_entries(after)->0.dom().contains("pipeline_depth"@),
        !gpu_entries(after)->0.dom().contains("fingerprint"@),
{
    lemma_keys_differ();
    let (m, n) = (value_entries(before)->0, value_entries(after)->0);
    assert(n.remove("gpu"@).dom().contains(key) == m.remove("gpu"@).dom().contains(key));
    assert(m.dom().contains(key) && key != "gpu"@ ==> n.remove("gpu"@)[key] == m.remove(
        "gpu"@,
    )[key]);
    let (g, h) = (gpu_entries(before)->0, gpu_entries(after)->0);
    let rest = g.remove("profiles"@).remove("batch_size"@).remove("pipeline_depth"@).remove(
        "fingerprint"@,
    );
    assert(h.remove("profiles"@) == rest);
    assert(h.remove("profiles"@).dom().contains(key) == rest.dom().contains(key));
    assert(rest.dom().contains(key) ==> h.remove("profiles"@)[key] == rest[key]);
    assert(!h.remove("profiles"@).dom().contains("batch_size"@));
    assert(!h.remove("profiles"@).dom().contains("pipeline_depth"@));
    assert(!h.remove("profiles"@).dom().contains("fingerprint"@));
}

/// The settings have a `gpu` table exactly where they are a table that has a table
/// under that key, and what it holds is what is read there.
pub proof fn law_gpu_table(doc: toml::Value)
    ensures
        gpu_entries(doc) is Some <==> value_entries(doc) is Some && value_entries(
            doc,
        )->0.dom().contains("gpu"@) && value_entries(value_entries(doc)->0["gpu"@]) is Some,
        gpu_entries(doc) is Some ==> gpu_entries(doc) == value_entries(
            value_entries(doc)->0["gpu"@],
        ),
{
}

/// What is written of the profiles can be found again: under `gpu`, under
/// `profiles`, under each fingerprint and no other, stand the batch size and the
/// depth, and nothing else.
pub proof fn law_profiles_are_found_again(
    before: toml::Value,
    after: toml::Value,
    profiles: Map<Seq<char>, GpuProfile>,
    gpu: Map<Seq<char>, toml::Value>,
    written: Map<Seq<char>, toml::Value>,
    fp: Seq<char>,
)
    requires
        profiles_written(before, after, profiles),
        value_entries(value_entries(after)->0["gpu"@]) == Some(gpu),
        value_entries(gpu["profiles"@]) == Some(written),
    ensures
        gpu.dom().contains("profiles"@),
        written.dom().contains(fp) <==> profiles.dom().contains(fp),
        profiles.dom().contains(fp) ==> {
            let entry = value_entries(written[fp]);
            &&& entry is Some
            &&& entry->0.dom().contains("batch_size"@)
            &&& entry->0.dom().contains("pipeline_depth"@)
            &&& forall|key: Seq<char>| #[trigger]
                entry->0.dom().contains(key) ==> key == "batch_size"@ || key == "pipeline_depth"@
            &&& value_integer(entry->0["batch_size"@]) == Some(profiles[fp].batch_size as i64)
            &&& profiles[fp].batch_size <= i64::MAX ==> value_integer(
                entry->0["batch_size"@],
            )->0 == profiles[fp].batch_size
            &&& value_integer(entry->0["pipeline_depth"@]) is Some
            &&& value_integer(entry->0["pipeline_depth"@])->0 == profiles[fp].pipeline_depth
        },
{
    law_gpu_table(after);
}

/// What is written of a single device can be found again under `gpu`, and
/// everything else there and outside it stays.
pub proof fn law_tuning_is_found_again(
    before: toml::Value,
    after: toml::Value,
    p: GpuProfile,
    fingerprint: Seq<char>,
    old_gpu: Map<Seq<char>, toml::Value>,
    gpu: Map<Seq<char>, toml::Value>,
    key: Seq<char>,
)
    requires
        tuning_written(before, after, p, fingerprint),
        value_entries(value_entries(before)->0["gpu"@]) == Some(old_gpu),
        value_entries(value_entries(after)->0["gpu"@]) == Some(gpu),
    ensures
        gpu.dom().contains("batch_size"@),
        gpu.dom().contains("pipeline_depth"@),
        gpu.dom().contains("fingerprint"@),
        value_integer(gpu["batch_size"@]) == Some(p.batch_size as i64),
        p.batch_size <= i64::MAX ==> value_integer(gpu["batch_size"@]) is Some && value_integer(
            gpu["batch_size"@],
        )->0 == p.batch_size,
        value_integer(gpu["pipeline_depth"@]) is Some && value_integer(gpu["pipeline_depth"@])->0
            == p.pipeline_depth,
        value_string(gpu["fingerprint"@]) == Some(fingerprint),
        key != "batch_size"@ && key != "pipeline_depth"@ && key != "fingerprint"@ ==> (
        gpu.dom().contains(key) <==> old_gpu.dom().contains(key)) && (old_gpu.dom().contains(key)
            ==> gpu[key] == old_gpu[key]),
        key != "gpu"@ ==> (value_entries(after)->0.dom().contains(key) <==> value_entries(
            before,
        )->0.dom().contains(key)),
        key != "gpu"@ && value_entries(before)->0.dom().contains(key) ==> value_entries(
            after,
        )->0[key] == value_entries(before)->0[key],
{
    law_gpu_table(before);
    law_gpu_table(after);
    let (m, n) = (value_entries(before)->0, value_entries(after)->0);
    assert(n.remove("gpu"@).dom().contains(key) == m.remove("gpu"@).dom().contains(key));
    assert(m.dom().contains(key) && key != "gpu"@ ==> n.remove("gpu"@)[key] == m.remove(
        "gpu"@,
    )[key]);
}

/// Settings are answered with their text where they can be written, and with an
/// error where they cannot.
pub proof fn law_written_settings_are_answered(after: toml::Value, r: Result<String, PersistError>)
    requires
        written_as(after, r),
    ensures
        r is Ok <==> toml_text(after) is Some,
        r matches Ok(t) ==> toml_text(after) == Some(t@),
        r matches Err(e) ==> e is Unwritable,
{
}

} // verus!
