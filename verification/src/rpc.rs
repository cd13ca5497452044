//! Transport-independent requests: what a method name and its parameters ask
//! of the daemon, and the framing of the named-pipe transport.

use crate::engine::EngineError;
use crate::ipc::{parse_request, request_of, three_words_ask_for_a_state, SetOpts};
use crate::json::{as_text, member, text_of, tree, Json, Tree};
use crate::text::{join2, join3, same_text};
use vstd::prelude::*;

verus! {

/// A request to the daemon.
#[derive(Debug)]
pub enum Request {
    ListOutputs,
    SetOutputEnabled { target: String, enabled: Option<bool>, opts: SetOpts },
    ConfirmPending,
    RevertPending,
    ListProfiles,
    ApplyProfile { name: String },
    SaveProfile { name: String },
    DeleteProfile { name: String },
    SetAlias { alias: String, target: String },
    GetStatus,
    Quit,
}

/// What a request asks for, with its texts as character sequences.
pub enum RequestView {
    ListOutputs,
    SetOutputEnabled { target: Seq<char>, enabled: Option<bool>, opts: SetOpts },
    ConfirmPending,
    RevertPending,
    ListProfiles,
    ApplyProfile { name: Seq<char> },
    SaveProfile { name: Seq<char> },
    DeleteProfile { name: Seq<char> },
    SetAlias { alias: Seq<char>, target: Seq<char> },
    GetStatus,
    Quit,
}

impl View for Request {
    type V = RequestView;

    open spec fn view(&self) -> RequestView {
        match *self {
            Request::ListOutputs => RequestView::ListOutputs,
            Request::SetOutputEnabled { target, enabled, opts } => RequestView::SetOutputEnabled {
                target: target@,
                enabled,
                opts,
            },
            Request::ConfirmPending => RequestView::ConfirmPending,
            Request::RevertPending => RequestView::RevertPending,
            Request::ListProfiles => RequestView::ListProfiles,
            Request::ApplyProfile { name } => RequestView::ApplyProfile { name: name@ },
            Request::SaveProfile { name } => RequestView::SaveProfile { name: name@ },
            Request::DeleteProfile { name } => RequestView::DeleteProfile { name: name@ },
            Request::SetAlias { alias, target } => RequestView::SetAlias {
                alias: alias@,
                target: target@,
            },
            Request::GetStatus => RequestView::GetStatus,
            Request::Quit => RequestView::Quit,
        }
    }
}

/// A text parameter, or what is wrong with it.
pub open spec fn parameter(params: Tree, key: Seq<char>) -> Result<Seq<char>, Seq<char>> {
    match text_of(member(params, key)) {
        Some(s) => Ok(s),
        None => Err("missing string param '"@ + key + "'"@),
    }
}

fn str_param(params: &Json, key: &str) -> (r: Result<String, String>)
    ensures
        match r {
            Ok(s) => parameter(tree(*params), key@) == Ok::<Seq<char>, Seq<char>>(s@),
            Err(e) => parameter(tree(*params), key@) == Err::<Seq<char>, Seq<char>>(e@),
        },
{
    match as_text(params.get(key)) {
        Some(s) => Ok(s.to_owned()),
        None => Err(join3("missing string param '", key, "'")),
    }
}

/// The options of a request, or what is wrong with them; absent ones are the
/// default.
pub open spec fn options(given: Option<Result<SetOpts, String>>) -> Result<SetOpts, Seq<char>> {
    match given {
        Some(Ok(o)) => Ok(o),
        Some(Err(e)) => Err("bad opts: "@ + e@),
        None => Ok(SetOpts { force: false, no_timer: false, revert_secs: None }),
    }
}

/// What a request to switch an output asks for, or what is wrong with it.
pub open spec fn switch_request(params: Tree, opts: Option<Result<SetOpts, String>>) -> Result<
    RequestView,
    Seq<char>,
> {
    match (parameter(params, "target"@), parameter(params, "mode"@)) {
        (Err(e), _) => Err(e),
        (_, Err(e)) => Err(e),
        (Ok(target), Ok(mode)) => match request_of(mode) {
            None => Err("bad mode '"@ + mode + "'"@),
            Some(enabled) => match options(opts) {
                Ok(opts) => Ok(RequestView::SetOutputEnabled { target, enabled, opts }),
                Err(e) => Err(e),
            },
        },
    }
}

/// What a method name and its parameters ask for, or what is wrong with them.
/// `opts` is what became of reading the parameter of that name, if it is there.
pub open spec fn routed(
    method: Seq<char>,
    params: Tree,
    opts: Option<Result<SetOpts, String>>,
) -> Result<RequestView, Seq<char>> {
    let name = parameter(params, "name"@);
    if method == "list_outputs"@ {
        Ok(RequestView::ListOutputs)
    } else if method == "set_output_enabled"@ {
        switch_request(params, opts)
    } else if method == "confirm_pending"@ {
        Ok(RequestView::ConfirmPending)
    } else if method == "revert_pending"@ {
        Ok(RequestView::RevertPending)
    } else if method == "list_profiles"@ {
        Ok(RequestView::ListProfiles)
    } else if method == "apply_profile"@ {
        match name {
            Ok(name) => Ok(RequestView::ApplyProfile { name }),
            Err(e) => Err(e),
        }
    } else if method == "save_profile"@ {
        match name {
            Ok(name) => Ok(RequestView::SaveProfile { name }),
            Err(e) => Err(e),
        }
    } else if method == "delete_profile"@ {
        match name {
            Ok(name) => Ok(RequestView::DeleteProfile { name }),
            Err(e) => Err(e),
        }
    } else if method == "set_alias"@ {
        match (parameter(params, "alias"@), parameter(params, "target"@)) {
            (Err(e), _) => Err(e),
            (_, Err(e)) => Err(e),
            (Ok(alias), Ok(target)) => Ok(RequestView::SetAlias { alias, target }),
        }
    } else if method == "get_status"@ {
        Ok(RequestView::GetStatus)
    } else if method == "quit"@ {
        Ok(RequestView::Quit)
    } else {
        Err("unknown method '"@ + method + "'"@)
    }
}

/// Whether a result is the one that a routed request stands for. What is wrong
/// with a request is reported as a state error.
pub open spec fn answers(
    r: Result<Request, EngineError>,
    want: Result<RequestView, Seq<char>>,
) -> bool {
    match (r, want) {
        (Ok(q), Ok(v)) => q@ == v,
        (Err(EngineError::Store(m)), Err(e)) => m@ == e,
        _ => false,
    }
}

fn route_switch(params: &Json, opts: Option<Result<SetOpts, String>>) -> (r: Result<
    Request,
    EngineError,
>)
    ensures
        answers(r, switch_request(tree(*params), opts)),
{
    let target: String = match str_param(params, "target") {
        Ok(t) => t,
        Err(e) => {
            return Err(EngineError::Store(e));
        },
    };
    let mode: String = match str_param(params, "mode") {
        Ok(m) => m,
        Err(e) => {
            return Err(EngineError::Store(e));
        },
    };
    let enabled: Option<bool> = match parse_request(mode.as_str()) {
        Some(e) => e,
        None => {
            return Err(EngineError::Store(join3("bad mode '", mode.as_str(), "'")));
        },
    };
    match opts {
        Some(Ok(opts)) => Ok(Request::SetOutputEnabled { target, enabled, opts }),
        Some(Err(e)) => Err(EngineError::Store(join2("bad opts: ", e.as_str()))),
        None => Ok(Request::SetOutputEnabled { target, enabled, opts: SetOpts::default() }),
    }
}

/// What a method name and its parameters ask for. `opts` is what became of
/// reading the parameter of that name, if it is there.
pub fn route(method: &str, params: &Json, opts: Option<Result<SetOpts, String>>) -> (r: Result<
    Request,
    EngineError,
>)
    ensures
        answers(r, routed(method@, tree(*params), opts)),
{
    if same_text(method, "list_outputs") {
        Ok(Request::ListOutputs)
    } else if same_text(method, "set_output_enabled") {
        route_switch(params, opts)
    } else if same_text(method, "confirm_pending") {
        Ok(Request::ConfirmPending)
    } else if same_text(method, "revert_pending") {
        Ok(Request::RevertPending)
    } else if same_text(method, "list_profiles") {
        Ok(Request::ListProfiles)
    } else if same_text(method, "apply_profile") {
        match str_param(params, "name") {
            Ok(name) => Ok(Request::ApplyProfile { name }),
            Err(e) => Err(EngineError::Store(e)),
        }
    } else if same_text(method, "save_profile") {
        match str_param(params, "name") {
            Ok(name) => Ok(Request::SaveProfile { name }),
            Err(e) => Err(EngineError::Store(e)),
        }
    } else if same_text(method, "delete_profile") {
        match str_param(params, "name") {
            Ok(name) => Ok(Request::DeleteProfile { name }),
            Err(e) => Err(EngineError::Store(e)),
        }
    } else if same_text(method, "set_alias") {
        match str_param(params, "alias") {
            Ok(alias) => match str_param(params, "target") {
                Ok(target) => Ok(Request::SetAlias { alias, target }),
                Err(e) => Err(EngineError::Store(e)),
            },
            Err(e) => Err(EngineError::Store(e)),
        }
    } else if same_text(method, "get_status") {
        Ok(Request::GetStatus)
    } else if same_text(method, "quit") {
        Ok(Request::Quit)
    } else {
        Err(EngineError::Store(join3("unknown method '", method, "'")))
    }
}

/// What a DBus call to switch an output asks for, or what is wrong with it.
pub open spec fn dbus_request(
    target: Seq<char>,
    mode: Seq<char>,
    opts: Result<SetOpts, String>,
) -> Result<RequestView, Seq<char>> {
    match (request_of(mode), opts) {
        (None, _) => Err("bad mode '"@ + mode + "' (expected on|off|toggle)"@),
        (Some(_), Err(e)) => Err("bad opts: "@ + e@),
        (Some(enabled), Ok(opts)) => Ok(RequestView::SetOutputEnabled { target, enabled, opts }),
    }
}

/// What a DBus call to switch an output asks for: `mode` is "on", "off" or
/// "toggle", `opts` what became of reading its options.
pub fn dbus_switch(target: String, mode: &str, opts: Result<SetOpts, String>) -> (r: Result<
    Request,
    EngineError,
>)
    ensures
        answers(r, dbus_request(target@, mode@, opts)),
{
    let enabled: Option<bool> = match parse_request(mode) {
        Some(e) => e,
        None => {
            return Err(
                EngineError::Store(join3("bad mode '", mode, "' (expected on|off|toggle)")),
            );
        },
    };
    match opts {
        Ok(opts) => Ok(Request::SetOutputEnabled { target, enabled, opts }),
        Err(e) => Err(EngineError::Store(join2("bad opts: ", e.as_str()))),
    }
}

// --------------------------------------------------------------------- pipe

/// The method that a request line of the pipe names; empty when it names none.
pub open spec fn method_in(request: Tree) -> Seq<char> {
    match text_of(member(request, "method"@)) {
        Some(m) => m,
        None => ""@,
    }
}

/// The method that a request line of the pipe names; empty when it names none.
pub fn call_method(request: &Json) -> (r: String)
    ensures
        r@ == method_in(tree(*request)),
{
    match as_text(request.get("method")) {
        Some(m) => m.to_owned(),
        None => "".to_owned(),
    }
}

/// The line that answers a request; `id` and `payload` are JSON.
pub fn response_line(id: &str, payload: &str) -> (r: String)
    ensures
        r@ == "{\"id\":"@ + id@ + ",\"payload\":"@ + payload@ + "}\n"@,
{
    let mut s = join3("{\"id\":", id, ",\"payload\":");
    s.append(payload);
    s.append("}\n");
    s
}

/// The line that tells an event; `payload` is JSON.
pub fn event_line(payload: &str) -> (r: String)
    ensures
        r@ == "{\"event\":"@ + payload@ + "}\n"@,
{
    join3("{\"event\":", payload, "}\n")
}

/// Each method asks for its own kind of request, and no other name asks for anything.
pub proof fn methods_ask_for_their_requests(
    r: Result<RequestView, Seq<char>>,
    method: Seq<char>,
    params: Tree,
    opts: Option<Result<SetOpts, String>>,
)
    requires
        r == routed(method, params, opts),
    ensures
        r matches Ok(v) ==> (v is ListOutputs <==> method == "list_outputs"@),
        r matches Ok(v) ==> (v is SetOutputEnabled <==> method == "set_output_enabled"@),
        r matches Ok(v) ==> (v is ConfirmPending <==> method == "confirm_pending"@),
        r matches Ok(v) ==> (v is RevertPending <==> method == "revert_pending"@),
        r matches Ok(v) ==> (v is ListProfiles <==> method == "list_profiles"@),
        r matches Ok(v) ==> (v is ApplyProfile <==> method == "apply_profile"@),
        r matches Ok(v) ==> (v is SaveProfile <==> method == "save_profile"@),
        r matches Ok(v) ==> (v is DeleteProfile <==> method == "delete_profile"@),
        r matches Ok(v) ==> (v is SetAlias <==> method == "set_alias"@),
        r matches Ok(v) ==> (v is GetStatus <==> method == "get_status"@),
        r matches Ok(v) ==> (v is Quit <==> method == "quit"@),
        method == "list_outputs"@ ==> r is Ok,
        method == "confirm_pending"@ ==> r is Ok,
        method == "revert_pending"@ ==> r is Ok,
        method == "list_profiles"@ ==> r is Ok,
        method == "get_status"@ ==> r is Ok,
        method == "quit"@ ==> r is Ok,
{
    reveal_strlit("list_outputs");
    assert("list_outputs"@.len() == 12);
    reveal_strlit("set_output_enabled");
    assert("set_output_enabled"@.len() == 18);
    reveal_strlit("confirm_pending");
    assert("confirm_pending"@.len() == 15);
    reveal_strlit("revert_pending");
    assert("revert_pending"@.len() == 14);
    reveal_strlit("list_profiles");
    assert("list_profiles"@.len() == 13);
    reveal_strlit("apply_profile");
    assert("apply_profile"@.len() == 13);
    reveal_strlit("save_profile");
    assert("save_profile"@.len() == 12);
    reveal_strlit("delete_profile");
    assert("delete_profile"@.len() == 14);
    reveal_strlit("set_alias");
    assert("set_alias"@.len() == 9);
    reveal_strlit("get_status");
    assert("get_status"@.len() == 10);
    reveal_strlit("quit");
    assert("quit"@.len() == 4);
    assert("list_outputs"@[0] != "save_profile"@[0]);
    assert("list_profiles"@[0] != "apply_profile"@[0]);
    assert("revert_pending"@[0] != "delete_profile"@[0]);
}

/// A request carries the texts of its parameters: a profile goes by its name, a switch by
/// its target, its mode and its options, an alias by its two names.
pub proof fn parameters_reach_the_request(
    r: Result<RequestView, Seq<char>>,
    method: Seq<char>,
    params: Tree,
    opts: Option<Result<SetOpts, String>>,
)
    requires
        r == routed(method, params, opts),
    ensures
        r matches Ok(RequestView::ApplyProfile { name }) ==> member(params, "name"@) == Some(
            Tree::Text(name),
        ),
        r matches Ok(RequestView::SaveProfile { name }) ==> member(params, "name"@) == Some(
            Tree::Text(name),
        ),
        r matches Ok(RequestView::DeleteProfile { name }) ==> member(params, "name"@) == Some(
            Tree::Text(name),
        ),
        r matches Ok(RequestView::SetAlias { alias, target }) ==> member(params, "alias"@) == Some(
            Tree::Text(alias),
        ) && member(params, "target"@) == Some(Tree::Text(target)),
        r matches Ok(RequestView::SetOutputEnabled { target, enabled, opts: o }) ==> {
            &&& member(params, "target"@) == Some(Tree::Text(target))
            &&& enabled == Some(true) ==> member(params, "mode"@) == Some(Tree::Text("on"@))
            &&& enabled == Some(false) ==> member(params, "mode"@) == Some(Tree::Text("off"@))
            &&& enabled is None ==> member(params, "mode"@) == Some(Tree::Text("toggle"@))
            &&& opts is None ==> !o.force && !o.no_timer && o.revert_secs is None
            &&& opts is Some ==> opts->0 == Ok::<SetOpts, String>(o)
        },
{
    if text_of(member(params, "mode"@)) is Some {
        three_words_ask_for_a_state(text_of(member(params, "mode"@))->0);
    }
}

/// A call over DBus asks for the state of its mode word, with its own target and options.
pub proof fn dbus_call_asks_for_its_state(
    r: Result<RequestView, Seq<char>>,
    target: Seq<char>,
    mode: Seq<char>,
    opts: Result<SetOpts, String>,
)
    requires
        r == dbus_request(target, mode, opts),
    ensures
        r is Ok <==> opts is Ok && (mode == "on"@ || mode == "off"@ || mode == "toggle"@),
        r is Ok ==> r == Ok::<RequestView, Seq<char>>(
            RequestView::SetOutputEnabled {
                target,
                enabled: if mode == "on"@ {
                    Some(true)
                } else if mode == "off"@ {
                    Some(false)
                } else {
                    None
                },
                opts: opts->Ok_0,
            },
        ),
{
    three_words_ask_for_a_state(mode);
    reveal_strlit("on");
    reveal_strlit("off");
    reveal_strlit("toggle");
}

/// What is answered is the request that was asked for, or an error that says what is wrong.
pub proof fn answer_is_what_was_asked(
    r: Result<Request, EngineError>,
    want: Result<RequestView, Seq<char>>,
)
    requires
        answers(r, want),
    ensures
        r is Ok <==> want is Ok,
        r matches Ok(q) ==> q@ == want->Ok_0,
        r matches Err(e) ==> (e matches EngineError::Store(m) && m@ == want->Err_0),
{
}

} // verus!
