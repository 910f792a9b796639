//! The `query` subcommand: selectors, what is asked of the backends, output.
use vstd::prelude::*;
use vstd::string::*;

use crate::flat::{
    fields_are_held, flat_entries, flat_views, keys_differ, map_of_text, pretty_maps_written,
    put_fields, with_fields, write_pretty_maps, write_yaml, yaml_written,
};
use crate::json::{Json, JsonView};
use crate::text::{
    cat2, cat4, debug_str, debug_text, find_char, join, joined, position, position_behind, same,
    sort_texts, sorted_texts, views,
};

verus! {

/// The output formats of a query.
#[derive(Clone, Copy, Debug, PartialEq, Eq, Structural)]
pub enum OutputFormat {
    Yaml,
    Json,
}

/// The arguments of a query.
#[derive(Debug)]
pub struct QueryArgs {
    /// Selector filters, all of which must hold, as key and value.
    pub selector: Vec<(String, String)>,
    pub output: OutputFormat,
}

/// A selector argument. Where its key is "mac", `mac` is what reading its value
/// as a MAC address gave: the address in its normal form, or the error.
#[derive(Debug)]
pub struct SelectorArg {
    pub key: String,
    pub value: String,
    pub mac: Result<String, String>,
}

/// What an entity must have to be selected.
#[derive(Debug)]
pub struct Selector {
    pub name: Option<String>,
    pub driver: Option<String>,
    pub mac: Option<String>,
    pub pci_path: Option<String>,
}

/// What a selector holds.
pub struct SelectorView {
    pub name: Option<Seq<char>>,
    pub driver: Option<Seq<char>>,
    pub mac: Option<Seq<char>>,
    pub pci_path: Option<Seq<char>>,
}

/// The characters of an optional string.
pub open spec fn opt_view(s: Option<String>) -> Option<Seq<char>> {
    match s {
        Some(t) => Some(t@),
        None => None,
    }
}

impl View for Selector {
    type V = SelectorView;

    open spec fn view(&self) -> SelectorView {
        SelectorView {
            name: opt_view(self.name),
            driver: opt_view(self.driver),
            mac: opt_view(self.mac),
            pci_path: opt_view(self.pci_path),
        }
    }
}

/// A selector of the daemon's interface.
#[derive(Debug)]
pub struct VarlinkSelector {
    pub entity_type: Option<String>,
    pub name: Option<String>,
    pub driver: Option<String>,
    pub mac: Option<String>,
    pub pci_path: Option<String>,
}

/// An entity as a backend reports it: its type, and its fields in their order.
#[derive(Debug)]
pub struct State {
    pub entity_type: String,
    pub fields: Vec<(String, Json)>,
}

/// An entity as the daemon reports it: its type, the name in its selector, and its
/// fields by ascending key.
#[derive(Debug)]
pub struct VarlinkState {
    pub entity_type: String,
    pub name: Option<String>,
    pub fields: Vec<(String, Json)>,
}

// ── Selectors ────────────────────────────────────────────────────────────────

/// Whether a key may stand in a selector.
pub open spec fn selector_key(key: Seq<char>) -> bool {
    key == "type"@ || key == "name"@ || key == "driver"@ || key == "mac"@ || key == "pci_path"@
}

/// The keys that may stand in a selector, as they are listed in messages.
pub open spec fn selector_keys() -> Seq<char> {
    "type, name, driver, mac, pci_path"@
}

/// What a selector argument reads as: the key before the first equals sign and
/// the value behind it, or what is wrong with it.
pub open spec fn selector_read(s: Seq<char>) -> Result<(Seq<char>, Seq<char>), Seq<char>> {
    match position(s, '=', 0) {
        None => Err(
            "selector must be in key=value format, got: "@ + debug_text(s) + ". Valid keys: "@
                + selector_keys(),
        ),
        Some(eq) => if selector_key(s.take(eq)) {
            Ok((s.take(eq), s.skip(eq + 1)))
        } else {
            Err(
                "invalid selector key "@ + debug_text(s.take(eq)) + "; valid keys: "@
                    + selector_keys(),
            )
        },
    }
}

/// Whether a result holds what a model says.
pub open spec fn reads_as(
    r: Result<(String, String), String>,
    model: Result<(Seq<char>, Seq<char>), Seq<char>>,
) -> bool {
    match (r, model) {
        (Ok(pair), Ok(m)) => pair.0@ == m.0 && pair.1@ == m.1,
        (Err(e), Err(m)) => e@ == m,
        _ => false,
    }
}

/// Whether a key may stand in a selector.
fn is_selector_key(key: &str) -> (r: bool)
    ensures
        r == selector_key(key@),
{
    same(key, "type") || same(key, "name") || same(key, "driver") || same(key, "mac") || same(
        key,
        "pci_path",
    )
}

/// Reads a selector argument of the form `key=value`.
pub fn parse_selector(s: &str) -> (r: Result<(String, String), String>)
    ensures
        reads_as(r, selector_read(s@)),
{
    match find_char(s, '=') {
        None => {
            let shown = debug_str(s);
            Err(
                cat4(
                    "selector must be in key=value format, got: ",
                    shown.as_str(),
                    ". Valid keys: ",
                    "type, name, driver, mac, pci_path",
                ),
            )
        },
        Some(eq) => {
            let n: usize = s.unicode_len();
            let key = s.substring_char(0, eq);
            let value = s.substring_char(eq + 1, n);
            assert(key@ == s@.take(eq as int));
            assert(value@ == s@.skip(eq + 1));
            if !is_selector_key(key) {
                let shown = debug_str(key);
                return Err(
                    cat4(
                        "invalid selector key ",
                        shown.as_str(),
                        "; valid keys: ",
                        "type, name, driver, mac, pci_path",
                    ),
                );
            }
            Ok((key.to_owned(), value.to_owned()))
        },
    }
}

/// The entity type that the first `n` arguments ask for: the last one given.
pub open spec fn type_asked(args: Seq<SelectorArg>, n: nat) -> Option<Seq<char>>
    decreases n,
{
    if n == 0 || n > args.len() {
        None
    } else if args[n - 1].key@ == "type"@ {
        Some(args[n - 1].value@)
    } else {
        type_asked(args, (n - 1) as nat)
    }
}

/// Whether one of the first `n` arguments asks for more than a type.
pub open spec fn asks_more(args: Seq<SelectorArg>, n: nat) -> bool
    decreases n,
{
    n != 0 && n <= args.len() && (args[n - 1].key@ != "type"@ || asks_more(args, (n - 1) as nat))
}

/// A selector after one more argument.
pub open spec fn selector_with(
    sel: SelectorView,
    arg: SelectorArg,
) -> Result<SelectorView, Seq<char>> {
    if arg.key@ == "type"@ {
        Ok(sel)
    } else if arg.key@ == "name"@ {
        Ok(SelectorView { name: Some(arg.value@), ..sel })
    } else if arg.key@ == "driver"@ {
        Ok(SelectorView { driver: Some(arg.value@), ..sel })
    } else if arg.key@ == "pci_path"@ {
        Ok(SelectorView { pci_path: Some(arg.value@), ..sel })
    } else if arg.key@ == "mac"@ {
        match arg.mac {
            Ok(mac) => Ok(SelectorView { mac: Some(mac@), ..sel }),
            Err(e) => Err("invalid MAC address "@ + debug_text(arg.value@) + ": "@ + e@),
        }
    } else {
        Err("unsupported selector key: "@ + debug_text(arg.key@))
    }
}

/// The selector that asks for nothing.
pub open spec fn any_entity() -> SelectorView {
    SelectorView { name: None, driver: None, mac: None, pci_path: None }
}

/// The selector that the first `n` arguments build, or the first error.
pub open spec fn selector_built(args: Seq<SelectorArg>, n: nat) -> Result<SelectorView, Seq<char>>
    decreases n,
{
    if n == 0 || n > args.len() {
        Ok(any_entity())
    } else {
        match selector_built(args, (n - 1) as nat) {
            Ok(sel) => selector_with(sel, args[n - 1]),
            Err(e) => Err(e),
        }
    }
}

/// An error among the first arguments is the error of all of them.
proof fn lemma_first_error(args: Seq<SelectorArg>, n: nat, m: nat)
    requires
        n <= m <= args.len(),
        selector_built(args, n) is Err,
    ensures
        selector_built(args, m) == selector_built(args, n),
    decreases m,
{
    if n < m {
        lemma_first_error(args, n, (m - 1) as nat);
    }
}

/// Splits the arguments of a query into the entity type asked for and a selector
/// for the rest; there is none where no argument asks for more than a type.
pub fn extract_type_and_selector(args: &[SelectorArg]) -> (r: Result<
    (Option<String>, Option<Selector>),
    String,
>)
    ensures
        match r {
            Ok((entity_type, selector)) => {
                &&& opt_view(entity_type) == type_asked(args@, args@.len())
                &&& selector is Some == asks_more(args@, args@.len())
                &&& selector is Some ==> selector_built(args@, args@.len()) == Ok::<
                    SelectorView,
                    Seq<char>,
                >(selector->0@)
            },
            Err(e) => asks_more(args@, args@.len()) && selector_built(args@, args@.len()) == Err::<
                SelectorView,
                Seq<char>,
            >(e@),
        },
        r is Err == selector_built(args@, args@.len()) is Err,
{
    let mut entity_type: Option<String> = None;
    let mut more = false;
    let mut sel = Selector { name: None, driver: None, mac: None, pci_path: None };
    let n: usize = args.len();
    let mut i: usize = 0;
    while i < n
        invariant
            i <= n,
            n == args@.len(),
            opt_view(entity_type) == type_asked(args@, i as nat),
            more == asks_more(args@, i as nat),
            selector_built(args@, i as nat) == Ok::<SelectorView, Seq<char>>(sel@),
            !more ==> sel@ == any_entity(),
        decreases n - i,
    {
        let arg = &args[i];
        let key = arg.key.as_str();
        if same(key, "type") {
            entity_type = Some(arg.value.clone());
        } else {
            more = true;
            proof {
                lemma_asks_more(args@, i as nat + 1, args@.len());
            }
            if same(key, "name") {
                sel.name = Some(arg.value.clone());
            } else if same(key, "driver") {
                sel.driver = Some(arg.value.clone());
            } else if same(key, "pci_path") {
                sel.pci_path = Some(arg.value.clone());
            } else if same(key, "mac") {
                match &arg.mac {
                    Ok(mac) => {
                        sel.mac = Some(mac.clone());
                    },
                    Err(e) => {
                        let shown = debug_str(arg.value.as_str());
                        proof {
                            lemma_first_error(args@, (i + 1) as nat, args@.len());
                        }
                        return Err(
                            cat4("invalid MAC address ", shown.as_str(), ": ", e.as_str()),
                        );
                    },
                }
            } else {
                let shown = debug_str(key);
                proof {
                    lemma_first_error(args@, (i + 1) as nat, args@.len());
                }
                return Err(cat2("unsupported selector key: ", shown.as_str()));
            }
        }
        i = i + 1;
    }
    if more {
        Ok((entity_type, Some(sel)))
    } else {
        Ok((entity_type, None))
    }
}

/// What the first arguments ask for, all arguments ask for.
proof fn lemma_asks_more(args: Seq<SelectorArg>, n: nat, m: nat)
    requires
        n <= m <= args.len(),
        asks_more(args, n),
    ensures
        asks_more(args, m),
    decreases m,
{
    if n < m {
        lemma_asks_more(args, n, (m - 1) as nat);
    }
}

/// A copy of an optional string.
fn copy_opt(s: &Option<String>) -> (r: Option<String>)
    ensures
        opt_view(r) == opt_view(*s),
{
    match s {
        Some(t) => Some(t.clone()),
        None => None,
    }
}

/// The selector that is sent to the daemon; none where everything is asked for.
pub fn build_varlink_selector(entity_type: Option<&str>, selector: Option<&Selector>) -> (r: Option<
    VarlinkSelector,
>)
    ensures
        r is None == (entity_type is None && selector is None),
        r matches Some(v) ==> {
            let asked = match selector {
                Some(s) => s@,
                None => any_entity(),
            };
            &&& opt_view(v.entity_type) == (match entity_type {
                Some(t) => Some(t@),
                None => None,
            })
            &&& opt_view(v.name) == asked.name
            &&& opt_view(v.driver) == asked.driver
            &&& opt_view(v.mac) == asked.mac
            &&& opt_view(v.pci_path) == asked.pci_path
        },
{
    if entity_type.is_none() && selector.is_none() {
        return None;
    }
    let kind = match entity_type {
        Some(t) => Some(t.to_owned()),
        None => None,
    };
    match selector {
        Some(sel) => Some(
            VarlinkSelector {
                entity_type: kind,
                name: copy_opt(&sel.name),
                driver: copy_opt(&sel.driver),
                mac: copy_opt(&sel.mac),
                pci_path: copy_opt(&sel.pci_path),
            },
        ),
        None => Some(
            VarlinkSelector {
                entity_type: kind,
                name: None,
                driver: None,
                mac: None,
                pci_path: None,
            },
        ),
    }
}

// ── What is asked of the backends ────────────────────────────────────────────

/// How the backends answer a query for one entity type.
#[derive(Debug)]
pub enum BackendReply {
    /// The entities that were found.
    States,
    /// No backend knows the entity type.
    UnsupportedEntityType(String),
    /// The type is known, and no entity matched.
    NotFound,
    /// Any other error.
    Failed,
}

/// What a reply leads to.
#[derive(Debug)]
pub enum QueryStep {
    /// The entities that were found are added to the output.
    Add,
    /// Nothing is added.
    Skip,
    /// A message is printed, and the program ends with the given code.
    Stop { message: String, code: u8 },
    /// The query fails; the error is put into this context.
    Fail { context: String },
}

/// The entity types that are queried: the one asked for, or all supported ones in
/// ascending order.
pub fn query_targets(entity_type: Option<&str>, supported: &[String]) -> (r: Vec<String>)
    ensures
        match entity_type {
            Some(t) => views(r@) == seq![t@],
            None => views(r@) == sorted_texts(views(supported@)),
        },
{
    match entity_type {
        Some(t) => {
            let mut one: Vec<String> = Vec::new();
            one.push(t.to_owned());
            assert(views(one@) == seq![t@]);
            one
        },
        None => sort_texts(supported),
    }
}

/// The message on an entity type that no backend knows, with the supported types
/// in ascending order.
pub open spec fn unknown_type_message(
    entity_type: Seq<char>,
    supported: Seq<Seq<char>>,
) -> Seq<char> {
    "Error: unknown entity type "@ + debug_text(entity_type) + ". Valid types: "@ + joined(
        sorted_texts(supported),
        ", "@,
    )
}

/// What a reply of the backends leads to. `asked` says whether the user asked for
/// this one entity type.
pub fn query_step(
    asked: bool,
    entity_type: &str,
    supported: &[String],
    reply: &BackendReply,
) -> (r: QueryStep)
    ensures
        match *reply {
            BackendReply::States => r is Add,
            BackendReply::NotFound => r is Skip,
            BackendReply::UnsupportedEntityType(t) if asked => r matches QueryStep::Stop {
                message,
                code,
            } && code == 2 && message@ == unknown_type_message(t@, views(supported@)),
            _ => r matches QueryStep::Fail { context } && context@ == (if asked {
                "backend query failed"@
            } else {
                "backend query failed for entity type "@ + debug_text(entity_type@)
            }),
        },
{
    match reply {
        BackendReply::States => QueryStep::Add,
        BackendReply::NotFound => QueryStep::Skip,
        BackendReply::UnsupportedEntityType(t) => {
            if asked {
                let valid = sort_texts(supported);
                let list = join(valid.as_slice(), ", ");
                let shown = debug_str(t.as_str());
                let message = cat4(
                    "Error: unknown entity type ",
                    shown.as_str(),
                    ". Valid types: ",
                    list.as_str(),
                );
                QueryStep::Stop { message, code: 2 }
            } else {
                let shown = debug_str(entity_type);
                QueryStep::Fail {
                    context: cat2("backend query failed for entity type ", shown.as_str()),
                }
            }
        },
        BackendReply::Failed => {
            if asked {
                QueryStep::Fail { context: "backend query failed".to_owned() }
            } else {
                let shown = debug_str(entity_type);
                QueryStep::Fail {
                    context: cat2("backend query failed for entity type ", shown.as_str()),
                }
            }
        },
    }
}

// ── Output ───────────────────────────────────────────────────────────────────

/// The entries of an entity: its type first, then its fields.
pub open spec fn entity_entries(entity_type: Seq<char>, fields: Seq<(String, Json)>) -> Seq<
    (Seq<char>, JsonView),
> {
    with_fields(seq![("type"@, JsonView::Str(entity_type))], fields, fields.len())
}

/// The flat map of an entity that a backend reports.
pub fn state_to_flat_map(state: &State) -> (r: indexmap::IndexMap<String, serde_json::Value>)
    ensures
        flat_entries(r) == entity_entries(state.entity_type@, state.fields@),
{
    let mut map = map_of_text("type", state.entity_type.as_str());
    put_fields(&mut map, &state.fields);
    map
}

/// The flat map of an entity that the daemon reports.
pub fn varlink_state_to_flat_map(vs: &VarlinkState) -> (r: indexmap::IndexMap<
    String,
    serde_json::Value,
>)
    ensures
        flat_entries(r) == entity_entries(vs.entity_type@, vs.fields@),
{
    let mut map = map_of_text("type", vs.entity_type.as_str());
    put_fields(&mut map, &vs.fields);
    map
}

/// What is printed for a list of entities in a format.
pub fn format_output(
    maps: &Vec<indexmap::IndexMap<String, serde_json::Value>>,
    format: OutputFormat,
) -> (r: Result<String, String>)
    ensures
        match format {
            OutputFormat::Yaml => match yaml_written(flat_views(maps@)) {
                Some(yaml) => r matches Ok(out) && out@ == yaml,
                None => r matches Err(e) && e@ == "failed to serialize output as YAML"@,
            },
            OutputFormat::Json => r matches Ok(out) && out@ == pretty_maps_written(
                flat_views(maps@),
            ) + "\n"@,
        },
{
    match format {
        OutputFormat::Yaml => match write_yaml(maps) {
            Some(yaml) => Ok(yaml),
            None => Err("failed to serialize output as YAML".to_owned()),
        },
        OutputFormat::Json => {
            let json = write_pretty_maps(maps);
            Ok(cat2(json.as_str(), "\n"))
        },
    }
}

/// The path of the daemon's socket: the value of `NETFYR_SOCKET_PATH` where that
/// is set, else the default.
pub fn daemon_socket_path(configured: Option<String>) -> (r: String)
    ensures
        r@ == (match configured {
            Some(path) => path@,
            None => "/run/netfyr/netfyr.sock"@,
        }),
{
    match configured {
        Some(path) => path,
        None => "/run/netfyr/netfyr.sock".to_owned(),
    }
}

/// Whatever its fields are, the first entry of an entity has the key "type".
pub proof fn type_comes_first(entity_type: Seq<char>, fields: Seq<(String, Json)>)
    ensures
        entity_entries(entity_type, fields).len() > 0,
        entity_entries(entity_type, fields)[0].0 == "type"@,
{
    lemma_first_key(seq![("type"@, JsonView::Str(entity_type))], fields, fields.len());
}

/// Putting fields in keeps the key of the first entry.
proof fn lemma_first_key(entries: Seq<(Seq<char>, JsonView)>, fields: Seq<(String, Json)>, n: nat)
    requires
        entries.len() > 0,
        n <= fields.len(),
    ensures
        with_fields(entries, fields, n).len() > 0,
        with_fields(entries, fields, n)[0].0 == entries[0].0,
    decreases n,
{
    if n > 0 {
        lemma_first_key(entries, fields, (n - 1) as nat);
        crate::flat::first_entry_stays(
            with_fields(entries, fields, (n - 1) as nat),
            fields[n - 1].0@,
            fields[n - 1].1@,
        );
    }
}

/// A selector argument reads as the key and the value it is made of, whatever the
/// value holds.
pub proof fn selector_reads_back(key: Seq<char>, value: Seq<char>)
    requires
        selector_key(key),
    ensures
        selector_read(key + "="@ + value) == Ok::<(Seq<char>, Seq<char>), Seq<char>>((key, value)),
{
    reveal_strlit("=");
    reveal_strlit("type");
    reveal_strlit("name");
    reveal_strlit("driver");
    reveal_strlit("mac");
    reveal_strlit("pci_path");
    let s = key + "="@ + value;
    assert(s == key.push('=') + value);
    position_behind(key, '=', value, 0);
    assert(s.take(key.len() as int) == key);
    assert(s.skip(key.len() as int + 1) == value);
}

/// The flat map of an entity holds its type and every field: of the fields of one
/// key the last one, whatever its value is. The type stands first, unless a field
/// has its key; and every other entry is a field.
pub proof fn every_field_is_shown(entity_type: Seq<char>, fields: Seq<(String, Json)>)
    ensures
        ({
            let all = entity_entries(entity_type, fields);
            &&& keys_differ(all)
            &&& forall|i: int|
                0 <= i < fields.len() && (forall|j: int|
                    i < j < fields.len() ==> (#[trigger] fields[j]).0@ != fields[i].0@)
                    ==> all.contains(((#[trigger] fields[i]).0@, fields[i].1@))
            &&& forall|k: int|
                1 <= k < all.len() ==> exists|i: int|
                    0 <= i < fields.len() && ((#[trigger] fields[i]).0@, fields[i].1@)
                        == #[trigger] all[k]
            &&& (forall|i: int| 0 <= i < fields.len() ==> (#[trigger] fields[i]).0@ != "type"@)
                ==> all[0] == ("type"@, JsonView::Str(entity_type))
        }),
{
    fields_are_held(seq![("type"@, JsonView::Str(entity_type))], fields, fields.len());
}

/// The entity type that a query asks for is that of the last argument with the key
/// "type".
pub proof fn last_type_counts(args: Seq<SelectorArg>, i: int, n: nat)
    requires
        0 <= i < n <= args.len(),
        args[i].key@ == "type"@,
        forall|j: int| i < j < n ==> (#[trigger] args[j]).key@ != "type"@,
    ensures
        type_asked(args, n) == Some(args[i].value@),
    decreases n,
{
    if i < n - 1 {
        assert(args[n - 1].key@ != "type"@);
        last_type_counts(args, i, (n - 1) as nat);
    }
}

/// A query asks for no entity type exactly where no argument has the key "type", and
/// for more than a type exactly where one has another key.
pub proof fn types_are_asked_for(args: Seq<SelectorArg>, n: nat)
    requires
        n <= args.len(),
    ensures
        type_asked(args, n) is Some <==> exists|i: int|
            0 <= i < n && (#[trigger] args[i]).key@ == "type"@,
        asks_more(args, n) <==> exists|i: int| 0 <= i < n && (#[trigger] args[i]).key@ != "type"@,
    decreases n,
{
    if n > 0 {
        let m = (n - 1) as nat;
        types_are_asked_for(args, m);
        if type_asked(args, m) is Some {
            let i = choose|i: int| 0 <= i < m && (#[trigger] args[i]).key@ == "type"@;
            assert(0 <= i < n && args[i].key@ == "type"@);
        }
        if asks_more(args, m) {
            let i = choose|i: int| 0 <= i < m && (#[trigger] args[i]).key@ != "type"@;
            assert(0 <= i < n && args[i].key@ != "type"@);
        }
    }
}

/// The selector of a query asks for what the last argument of each key asks for.
pub proof fn last_argument_of_a_key_counts(args: Seq<SelectorArg>, i: int, n: nat)
    requires
        0 <= i < n <= args.len(),
        forall|j: int| i < j < n ==> (#[trigger] args[j]).key@ != args[i].key@,
    ensures
        selector_built(args, n) matches Ok(sel) ==> {
            &&& args[i].key@ == "name"@ ==> sel.name == Some(args[i].value@)
            &&& args[i].key@ == "driver"@ ==> sel.driver == Some(args[i].value@)
            &&& args[i].key@ == "pci_path"@ ==> sel.pci_path == Some(args[i].value@)
            &&& args[i].key@ == "mac"@ ==> (args[i].mac matches Ok(mac) && sel.mac == Some(mac@))
        },
    decreases n,
{
    lemma_keys_apart();
    if i < n - 1 {
        assert(args[n - 1].key@ != args[i].key@);
        last_argument_of_a_key_counts(args, i, (n - 1) as nat);
    }
}

/// The selector of a query asks for nothing that no argument asks for. It cannot be
/// built exactly where an argument has a MAC address that cannot be read, or an
/// unknown key.
pub proof fn selectors_ask_for_no_more(args: Seq<SelectorArg>, n: nat)
    requires
        n <= args.len(),
    ensures
        selector_built(args, n) is Err <==> exists|i: int|
            0 <= i < n && (((#[trigger] args[i]).key@ == "mac"@ && args[i].mac is Err) || (
            args[i].key@ != "type"@ && args[i].key@ != "name"@ && args[i].key@ != "driver"@
                && args[i].key@ != "pci_path"@ && args[i].key@ != "mac"@)),
        selector_built(args, n) matches Ok(sel) ==> {
            &&& sel.name is Some ==> exists|i: int|
                0 <= i < n && (#[trigger] args[i]).key@ == "name"@
            &&& sel.driver is Some ==> exists|i: int|
                0 <= i < n && (#[trigger] args[i]).key@ == "driver"@
            &&& sel.pci_path is Some ==> exists|i: int|
                0 <= i < n && (#[trigger] args[i]).key@ == "pci_path"@
            &&& sel.mac is Some ==> exists|i: int|
                0 <= i < n && (#[trigger] args[i]).key@ == "mac"@
        },
    decreases n,
{
    lemma_keys_apart();
    if n > 0 {
        let m = (n - 1) as nat;
        selectors_ask_for_no_more(args, m);
        if selector_built(args, m) is Err {
            let i = choose|i: int|
                0 <= i < m && (((#[trigger] args[i]).key@ == "mac"@ && args[i].mac is Err) || (
                args[i].key@ != "type"@ && args[i].key@ != "name"@ && args[i].key@ != "driver"@
                    && args[i].key@ != "pci_path"@ && args[i].key@ != "mac"@));
            assert(0 <= i < n && args[i] == args[i]);
        } else if selector_built(args, n) is Ok {
            let before = selector_built(args, m)->Ok_0;
            if before.name is Some {
                let i = choose|i: int| 0 <= i < m && (#[trigger] args[i]).key@ == "name"@;
                assert(0 <= i < n && args[i].key@ == "name"@);
            }
            if before.driver is Some {
                let i = choose|i: int| 0 <= i < m && (#[trigger] args[i]).key@ == "driver"@;
                assert(0 <= i < n && args[i].key@ == "driver"@);
            }
            if before.pci_path is Some {
                let i = choose|i: int| 0 <= i < m && (#[trigger] args[i]).key@ == "pci_path"@;
                assert(0 <= i < n && args[i].key@ == "pci_path"@);
            }
            if before.mac is Some {
                let i = choose|i: int| 0 <= i < m && (#[trigger] args[i]).key@ == "mac"@;
                assert(0 <= i < n && args[i].key@ == "mac"@);
            }
        }
    }
}

/// The keys of selectors differ.
proof fn lemma_keys_apart()
    ensures
        "type"@ != "name"@,
        "type"@ != "driver"@,
        "type"@ != "mac"@,
        "type"@ != "pci_path"@,
        "name"@ != "driver"@,
        "name"@ != "mac"@,
        "name"@ != "pci_path"@,
        "driver"@ != "mac"@,
        "driver"@ != "pci_path"@,
        "mac"@ != "pci_path"@,
{
    reveal_strlit("type");
    reveal_strlit("name");
    reveal_strlit("driver");
    reveal_strlit("mac");
    reveal_strlit("pci_path");
    assert("type"@[0] == 't' && "name"@[0] == 'n' && "driver"@[0] == 'd' && "mac"@[0] == 'm'
        && "pci_path"@[0] == 'p');
}

/// A selector argument without an equals sign, or with a key that is none of the
/// five, is refused, and every other one is taken apart at the first equals sign.
pub proof fn other_selectors_are_refused(s: Seq<char>)
    ensures
        !s.contains('=') ==> selector_read(s) is Err,
        forall|eq: int|
            0 <= eq < s.len() && #[trigger] s[eq] == '=' && !s.take(eq).contains('=') ==> {
                let key = s.take(eq);
                let known = key == "type"@ || key == "name"@ || key == "driver"@ || key == "mac"@
                    || key == "pci_path"@;
                &&& known ==> selector_read(s) == Ok::<(Seq<char>, Seq<char>), Seq<char>>(
                    (key, s.skip(eq + 1)),
                )
                &&& !known ==> selector_read(s) is Err
            },
{
    crate::text::position_is_first(s, '=', 0);
    assert forall|eq: int|
        0 <= eq < s.len() && #[trigger] s[eq] == '=' && !s.take(eq).contains('=') implies position(
        s,
        '=',
        0,
    ) == Some(eq) by {
        let found = position(s, '=', 0)->0;
        if found < eq {
            assert(s.take(eq)[found] == '=');
        }
    }
}

/// What a selector holds is each of its parts, where it has them.
pub proof fn selectors_are_kept(sel: Selector)
    ensures
        sel.name matches Some(s) ==> sel@.name == Some(s@),
        sel.driver matches Some(s) ==> sel@.driver == Some(s@),
        sel.mac matches Some(s) ==> sel@.mac == Some(s@),
        sel.pci_path matches Some(s) ==> sel@.pci_path == Some(s@),
        sel.name is None ==> sel@.name is None,
        sel.driver is None ==> sel@.driver is None,
        sel.mac is None ==> sel@.mac is None,
        sel.pci_path is None ==> sel@.pci_path is None,
{
}

} // verus!
