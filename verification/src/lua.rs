//! Tools defined by Lua scripts. A script returns a table naming the tool,
//! describing it, naming its entry function and listing its arguments; this
//! module turns what was read from that table into a tool, with the
//! documented defaults, and decides what a call reports.
use vstd::prelude::*;
use crate::text::{to_ascii_lowercase, ascii_lower_spec};
use crate::tools::{ArgDescriptor, ArgKind, Presence, describes};

verus! {

/// One argument a Lua tool declares.
#[derive(Debug, Clone)]
pub struct ArgSpec {
    pub name: String,
    pub desc: String,
    pub ty: String,
    pub required: bool,
}

/// A tool defined by a Lua script.
#[derive(Debug, Clone)]
pub struct LuaTool {
    pub name: String,
    pub description: String,
    pub args: Vec<ArgSpec>,
    pub script_path: String,
    pub func_name: String,
}

/// The view of an optional text field, with a default for a missing one.
pub open spec fn field_or(f: Option<String>, default: Seq<char>) -> Seq<char> {
    match f {
        Some(s) => s@,
        None => default,
    }
}

fn field_or_else(f: Option<String>, default: &str) -> (r: String)
    ensures
        r@ == field_or(f, default@),
{
    match f {
        Some(s) => s,
        None => String::from_str(default),
    }
}

/// An argument from the fields of its table (`None` where a field is
/// missing or of the wrong kind): the name defaults to `arg`, the
/// description to the empty text, the type to `string`, and an argument is
/// required unless it says otherwise.
pub fn arg_spec_from_fields(
    name: Option<String>,
    description: Option<String>,
    ty: Option<String>,
    required: Option<bool>,
) -> (a: ArgSpec)
    ensures
        a.name@ == field_or(name, "arg"@),
        a.desc@ == field_or(description, ""@),
        a.ty@ == field_or(ty, "string"@),
        a.required == match required {
            Some(b) => b,
            None => true,
        },
{
    ArgSpec {
        name: field_or_else(name, "arg"),
        desc: field_or_else(description, ""),
        ty: field_or_else(ty, "string"),
        required: match required {
            Some(b) => b,
            None => true,
        },
    }
}

/// The type an argument's `type` field names: exactly `number`, or `bool`
/// or `boolean` without regard to ASCII case; anything else is a string.
pub open spec fn arg_kind_spec(ty: Seq<char>) -> ArgKind {
    let t = ascii_lower_spec(ty);
    if ty == "number"@ {
        ArgKind::Number
    } else if t == "bool"@ || t == "boolean"@ {
        ArgKind::Bool
    } else {
        ArgKind::Text
    }
}

/// The type an argument's `type` field names (see `arg_kind_spec`).
pub fn arg_kind(ty: &str) -> (k: ArgKind)
    ensures
        k == arg_kind_spec(ty@),
{
    let exact = String::from_str(ty);
    let t = to_ascii_lowercase(ty);
    let number = String::from_str("number");
    let b1 = String::from_str("bool");
    let b2 = String::from_str("boolean");
    if exact == number {
        ArgKind::Number
    } else if t == b1 || t == b2 {
        ArgKind::Bool
    } else {
        ArgKind::Text
    }
}

/// The name of the entry function: the `entry` field, or `run`.
pub fn entry_name(entry: Option<String>) -> (r: String)
    ensures
        r@ == field_or(entry, "run"@),
{
    field_or_else(entry, "run")
}

/// A tool from what was read of a script's table: its `name` (or the error
/// reading it), its `description`, the name of its entry function with
/// the outcome of looking that function up, and its arguments (or the
/// error reading them). A missing name, then a missing entry function,
/// then unreadable arguments, make the script unusable.
pub fn lua_tool_from_fields(
    name: Result<String, String>,
    description: Option<String>,
    func_name: String,
    entry_found: Result<(), String>,
    args: Result<Vec<ArgSpec>, String>,
    script_path: String,
) -> (r: Result<LuaTool, String>)
    ensures
        match r {
            Ok(t) => {
                &&& name matches Ok(n) && t.name@ == n@
                &&& t.description@ == field_or(description, "lua tool"@)
                &&& t.func_name@ == func_name@
                &&& entry_found is Ok
                &&& args matches Ok(a) && t.args@ == a@
                &&& t.script_path@ == script_path@
            },
            Err(e) => match name {
                Err(ne) => e@ == "missing name: "@ + ne@,
                Ok(_) => match entry_found {
                    Err(fe) => e@ == "missing entry function '"@ + func_name@ + "': "@ + fe@,
                    Ok(_) => args matches Err(ae) && e@ == ae@,
                },
            },
        },
{
    let name = match name {
        Ok(n) => n,
        Err(e) => {
            let mut m = String::from_str("missing name: ");
            m.append(e.as_str());
            return Err(m);
        },
    };
    let description = field_or_else(description, "lua tool");
    if let Err(e) = entry_found {
        let mut m = String::from_str("missing entry function '");
        m.append(func_name.as_str());
        m.append("': ");
        m.append(e.as_str());
        return Err(m);
    }
    let args = match args {
        Ok(a) => a,
        Err(e) => return Err(e),
    };
    Ok(LuaTool { name, description, args, script_path, func_name })
}

/// The presence a declared argument is announced with.
pub open spec fn presence_spec(required: bool) -> Presence {
    if required {
        Presence::Required
    } else {
        Presence::Optional
    }
}

impl LuaTool {
    /// The tool's name.
    pub fn get_name(&self) -> (r: String)
        ensures
            r@ == self.name@,
    {
        self.name.clone()
    }

    /// The tool's description, as the script gives it.
    pub fn get_description(&self) -> (r: String)
        ensures
            r@ == self.description@,
    {
        self.description.clone()
    }

    /// The arguments as announced: in order, each with its name,
    /// description, type (see `arg_kind_spec`) and whether it is required.
    pub fn build_arg_descriptors(&self) -> (r: Vec<ArgDescriptor>)
        ensures
            r@.len() == self.args@.len(),
            forall|i: int|
                0 <= i < r@.len() ==> describes(
                    #[trigger] r@[i],
                    self.args@[i].name@,
                    self.args@[i].desc@,
                    arg_kind_spec(self.args@[i].ty@),
                    presence_spec(self.args@[i].required),
                ),
    {
        let mut r: Vec<ArgDescriptor> = Vec::new();
        let mut i: usize = 0;
        while i < self.args.len()
            invariant
                i <= self.args@.len(),
                r@.len() == i,
                forall|k: int|
                    0 <= k < i ==> describes(
                        #[trigger] r@[k],
                        self.args@[k].name@,
                        self.args@[k].desc@,
                        arg_kind_spec(self.args@[k].ty@),
                        presence_spec(self.args@[k].required),
                    ),
            decreases self.args@.len() - i,
        {
            let a = &self.args[i];
            let presence = if a.required {
                Presence::Required
            } else {
                Presence::Optional
            };
            r.push(
                ArgDescriptor {
                    name: a.name.clone(),
                    description: a.desc.clone(),
                    kind: arg_kind(a.ty.as_str()),
                    presence,
                },
            );
            i += 1;
        }
        r
    }
}

/// What a Lua entry function returned: a string, or another value with its
/// JSON text when it has one.
#[derive(Debug, Clone)]
pub enum LuaReturn {
    Text(String),
    Other(Option<String>),
}

/// The text a call of a Lua tool gives for what its entry function
/// returned: a string as it is, another value as JSON, or `null` when the
/// value has no JSON form.
pub fn lua_return_text(ret: LuaReturn) -> (r: String)
    ensures
        r@ == match ret {
            LuaReturn::Text(s) => s@,
            LuaReturn::Other(Some(j)) => j@,
            LuaReturn::Other(None) => "null"@,
        },
{
    match ret {
        LuaReturn::Text(s) => s,
        LuaReturn::Other(Some(j)) => j,
        LuaReturn::Other(None) => String::from_str("null"),
    }
}

/// The text a call of a Lua tool reports: its result, or the error with a
/// `lua tool error: ` prefix.
pub fn invoke_output(result: Result<String, String>) -> (r: String)
    ensures
        r@ == match result {
            Ok(s) => s@,
            Err(e) => "lua tool error: "@ + e@,
        },
{
    match result {
        Ok(s) => s,
        Err(e) => {
            let mut m = String::from_str("lua tool error: ");
            m.append(e.as_str());
            m
        },
    }
}

/// What `build_arg_descriptors` announces follows each declared argument:
/// its own name and description; required exactly when the script
/// declares `required = true`, optional exactly when it does not; a number
/// exactly when its type is written `number`.
pub proof fn lemma_descriptors_follow_declarations(tool: LuaTool, ds: Seq<ArgDescriptor>)
    requires
        ds.len() == tool.args@.len(),
        forall|i: int|
            0 <= i < ds.len() ==> describes(
                #[trigger] ds[i],
                tool.args@[i].name@,
                tool.args@[i].desc@,
                arg_kind_spec(tool.args@[i].ty@),
                presence_spec(tool.args@[i].required),
            ),
    ensures
        forall|i: int|
            0 <= i < ds.len() ==> {
                &&& (#[trigger] ds[i]).name@ == tool.args@[i].name@
                &&& ds[i].description@ == tool.args@[i].desc@
                &&& (ds[i].presence == Presence::Required <==> tool.args@[i].required)
                &&& (ds[i].presence == Presence::Optional <==> !tool.args@[i].required)
                &&& (ds[i].kind == ArgKind::Number <==> tool.args@[i].ty@ == "number"@)
            },
{
    assert forall|i: int| 0 <= i < ds.len() implies {
        &&& (#[trigger] ds[i]).name@ == tool.args@[i].name@
        &&& ds[i].description@ == tool.args@[i].desc@
        &&& (ds[i].presence == Presence::Required <==> tool.args@[i].required)
        &&& (ds[i].presence == Presence::Optional <==> !tool.args@[i].required)
        &&& (ds[i].kind == ArgKind::Number <==> tool.args@[i].ty@ == "number"@)
    } by {
        assert(describes(
            ds[i],
            tool.args@[i].name@,
            tool.args@[i].desc@,
            arg_kind_spec(tool.args@[i].ty@),
            presence_spec(tool.args@[i].required),
        ));
    }
}

/// A field the script's table gives is used as it is; a missing one takes
/// its default.
pub proof fn lemma_given_field_is_used(given: String, default: Seq<char>)
    ensures
        field_or(Some(given), default) == given@,
        field_or(None, default) == default,
{
}

} // verus!
