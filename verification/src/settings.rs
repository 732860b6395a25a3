//! The application's own settings: an optional base-directory override
//! and the saved ordering of the stored profiles. Reading and writing the
//! settings file stays with the caller; this module turns the parsed JSON
//! document into settings and back.

use vstd::prelude::*;

verus! {

use crate::json::{Json, JsonV, as_arr, elems_view, fields_view, get_field, jget, json_view};

/// The settings this application keeps for itself.
#[derive(Debug, PartialEq)]
pub struct AppSettings {
    pub factory_path: Option<String>,
    pub config_order: Vec<String>,
}

impl Default for AppSettings {
    /// No override, no saved ordering.
    fn default() -> (r: AppSettings)
        ensures
            r.factory_path is None,
            r.config_order@.len() == 0,
    {
        AppSettings { factory_path: None, config_order: Vec::new() }
    }
}

impl AppSettings {
    /// Records a new override; the empty string clears it.
    pub fn set_factory_path(&mut self, path: String)
        ensures
            final(self).config_order == old(self).config_order,
            final(self).factory_path == if path@.len() == 0 {
                Option::<String>::None
            } else {
                Some(path)
            },
    {
        if path.as_str().is_empty() {
            self.factory_path = None;
        } else {
            self.factory_path = Some(path);
        }
    }

    /// Records a new profile ordering.
    pub fn set_config_order(&mut self, order: Vec<String>)
        ensures
            final(self).factory_path == old(self).factory_path,
            final(self).config_order == order,
    {
        self.config_order = order;
    }
}

/// The override field a settings document carries: absent or `null` mean
/// none, a string is the override, anything else is a malformed document.
pub open spec fn spec_factory_path_field(d: JsonV) -> Result<Option<Seq<char>>, ()> {
    match jget(d, "factory_path"@) {
        None => Ok(None),
        Some(JsonV::Null) => Ok(None),
        Some(JsonV::Str(s)) => Ok(Some(s)),
        Some(_) => Err(()),
    }
}

/// The ordering field a settings document carries: absent means empty, an
/// array of strings is the ordering, anything else is malformed.
pub open spec fn spec_config_order_field(d: JsonV) -> Result<Seq<Seq<char>>, ()> {
    match jget(d, "config_order"@) {
        None => Ok(Seq::empty()),
        Some(v) => match as_arr(v) {
            Some(a) => if forall|i: int| 0 <= i < a.len() ==> (#[trigger] a[i]) is Str {
                Ok(Seq::new(a.len(), |i: int| if 0 <= i < a.len() { a[i]->Str_0 } else { Seq::empty() }))
            } else {
                Err(())
            },
            None => Err(()),
        },
    }
}

/// Whether a parsed document is a well-formed settings document.
pub open spec fn spec_settings_ok(d: JsonV) -> bool {
    &&& d is Obj
    &&& spec_factory_path_field(d) is Ok
    &&& spec_config_order_field(d) is Ok
}

/// Reads settings out of a parsed document: `None` when the document is
/// not an object or a field has the wrong shape, as strict deserialization
/// would reject it.
#[verifier::loop_isolation(false)]
pub fn app_settings_from_json(d: &Json) -> (r: Option<AppSettings>)
    ensures
        match r {
            Some(s) => {
                &&& spec_settings_ok(d@)
                &&& (match s.factory_path {
                    Some(p) => spec_factory_path_field(d@) == Ok::<Option<Seq<char>>, ()>(Some(p@)),
                    None => spec_factory_path_field(d@) == Ok::<Option<Seq<char>>, ()>(
                        Option::<Seq<char>>::None,
                    ),
                })
                &&& spec_config_order_field(d@) matches Ok(o) && o.len() == s.config_order@.len()
                    && forall|i: int| 0 <= i < o.len() ==> (#[trigger] s.config_order@[i])@ == o[i]
            },
            None => !spec_settings_ok(d@),
        },
{
    let is_obj = match d {
        Json::Obj(_) => true,
        _ => false,
    };
    if !is_obj {
        return None;
    }
    let factory_path = match get_field(d, "factory_path") {
        None => None,
        Some(v) => match v {
            Json::Null => None,
            Json::Str(s) => Some(s.clone()),
            _ => {
                return None;
            },
        },
    };
    let mut config_order: Vec<String> = Vec::new();
    match get_field(d, "config_order") {
        None => {},
        Some(v) => match v {
            Json::Arr(items) => {
                let ghost iv = elems_view(items@);
                let mut i: usize = 0;
                while i < items.len()
                    invariant
                        0 <= i <= items.len(),
                        config_order.len() == i,
                        forall|m: int| 0 <= m < i ==> (#[trigger] iv[m]) is Str,
                        forall|m: int| 0 <= m < i ==> (#[trigger] config_order@[m])@ == iv[m]->Str_0,
                    decreases items.len() - i,
                {
                    proof {
                        assert(iv[i as int] == json_view(items@[i as int]));
                    }
                    match &items[i] {
                        Json::Str(s) => {
                            config_order.push(s.clone());
                        },
                        _ => {
                            return None;
                        },
                    }
                    i = i + 1;
                }
            },
            _ => {
                return None;
            },
        },
    }
    Some(AppSettings { factory_path, config_order })
}

/// Writes settings back into a JSON document, in the shape
/// `app_settings_from_json` reads.
pub fn app_settings_to_json(s: &AppSettings) -> (r: Json)
    ensures
        jget(r@, "factory_path"@) == Some(
            match s.factory_path {
                Some(p) => JsonV::Str(p@),
                None => JsonV::Null,
            },
        ),
        jget(r@, "config_order"@) == Some(
            JsonV::Arr(
                Seq::new(
                    s.config_order@.len(),
                    |i: int| if 0 <= i < s.config_order@.len() {
                        JsonV::Str(s.config_order@[i]@)
                    } else {
                        JsonV::Null
                    },
                ),
            ),
        ),
{
    let fp = match &s.factory_path {
        Some(p) => Json::Str(p.clone()),
        None => Json::Null,
    };
    let mut items: Vec<Json> = Vec::new();
    let mut i: usize = 0;
    while i < s.config_order.len()
        invariant
            0 <= i <= s.config_order.len(),
            items.len() == i,
            forall|m: int| 0 <= m < i ==> (#[trigger] items@[m])@ == JsonV::Str(s.config_order@[m]@),
        decreases s.config_order.len() - i,
    {
        items.push(Json::Str(s.config_order[i].clone()));
        i = i + 1;
    }
    let ghost itemsv = items@;
    let mut fields: Vec<(String, Json)> = Vec::new();
    fields.push(("factory_path".to_owned(), fp));
    fields.push(("config_order".to_owned(), Json::Arr(items)));
    let ghost fv = fields@;
    let r = Json::Obj(fields);
    proof {
        reveal_strlit("factory_path");
        reveal_strlit("config_order");
        assert(fields_view(fv).len() == 2);
        assert(fields_view(fv)[0].0 == "factory_path"@);
        assert(fields_view(fv)[1].0 == "config_order"@);
        assert("factory_path"@[0] == 'f' && "config_order"@[0] == 'c');
        assert(fields_view(fv)[0].0 != "config_order"@);
        crate::json::lemma_obj_get_at(fields_view(fv), "factory_path"@, 0);
        crate::json::lemma_obj_get_at(fields_view(fv), "config_order"@, 1);
        assert(fields_view(fv)[1].1 == JsonV::Arr(elems_view(itemsv)));
        assert forall|m: int| 0 <= m < itemsv.len() implies elems_view(itemsv)[m] == JsonV::Str(
            s.config_order@[m]@,
        ) by {
            assert(elems_view(itemsv)[m] == json_view(itemsv[m]));
        }
        assert(elems_view(itemsv) =~= Seq::new(
            s.config_order@.len(),
            |i: int| if 0 <= i < s.config_order@.len() {
                JsonV::Str(s.config_order@[i]@)
            } else {
                JsonV::Null
            },
        ));
    }
    r
}

} // verus!
