//! Answers that need the local app: which native surface a broker answer
//! asks for, and the answer an Agent gets when it asked to open the local UI.
use vstd::prelude::*;
use crate::json::{clone_json, json_view, JsonValue, JsonView};
use crate::text::{copy_string, str_eq};

verus! {

broadcast use vstd::string::group_string_axioms;

/// A surface of the local app that an answer asks to show.
#[derive(Clone, Debug, PartialEq, Eq)]
pub enum AgentNativeUiSurface {
    Pairing,
    Unlock,
    /// The unlock request with this reference expired.
    UnlockExpired(String),
    Authorization,
    /// The authorization request with this reference expired.
    AuthorizationExpired(String),
    LocalUi,
}

/// The native action an answer's error asks for (`/error/nativeActionRequired`).
pub open spec fn native_action(v: JsonValue) -> Option<Seq<char>> {
    match v.spec_get("error"@) {
        Some(e) => e.spec_get_str("nativeActionRequired"@),
        None => None,
    }
}

/// The answer an Agent gets once the local UI was opened for it.
pub open spec fn local_ui_answer(request_id: JsonView) -> JsonView {
    JsonView::Object(seq![
        ("ok"@, JsonView::Bool(true)),
        ("requestId"@, request_id),
        ("result"@, JsonView::Object(seq![("accepted"@, JsonView::Bool(true))])),
    ])
}

/// Finds the native surface a broker answer asks for. An answer that asks to
/// open the local UI is replaced by an acceptance that keeps its request id
/// (`null` when it has none); other answers are left as they are.
pub fn complete_native_ui_action(response: &mut JsonValue) -> (r: Option<AgentNativeUiSurface>)
    ensures
        native_action(*old(response)) == Some("open-local-ui"@) ==> r == Some(AgentNativeUiSurface::LocalUi)
            && json_view(*final(response)) == local_ui_answer(match old(response).spec_get("requestId"@) {
                Some(id) => json_view(id),
                None => JsonView::Null,
            }),
        native_action(*old(response)) != Some("open-local-ui"@) ==> *final(response) == *old(response),
        native_action(*old(response)) == Some("approve-pairing"@) ==> r == Some(AgentNativeUiSurface::Pairing),
        native_action(*old(response)) == Some("unlock-agent"@) ==> r == Some(AgentNativeUiSurface::Unlock),
        native_action(*old(response)) != Some("open-local-ui"@) && native_action(*old(response)) != Some("approve-pairing"@)
            && native_action(*old(response)) != Some("unlock-agent"@) ==> r is None,
{
    let action: Option<&str> = match response.get("error") {
        Some(e) => e.get_str("nativeActionRequired"),
        None => None,
    };
    let surface = match action {
        Some(a) => if str_eq(a, "open-local-ui") {
            Some(AgentNativeUiSurface::LocalUi)
        } else if str_eq(a, "approve-pairing") {
            Some(AgentNativeUiSurface::Pairing)
        } else if str_eq(a, "unlock-agent") {
            Some(AgentNativeUiSurface::Unlock)
        } else {
            None
        },
        None => None,
    };
    proof {
        reveal_strlit("open-local-ui");
        reveal_strlit("approve-pairing");
        reveal_strlit("unlock-agent");
        assert("open-local-ui"@ != "approve-pairing"@) by {
            assert("open-local-ui"@.len() != "approve-pairing"@.len());
        }
        assert("open-local-ui"@ != "unlock-agent"@) by {
            assert("open-local-ui"@.len() != "unlock-agent"@.len());
        }
        assert("approve-pairing"@ != "unlock-agent"@) by {
            assert("approve-pairing"@.len() != "unlock-agent"@.len());
        }
    }
    match surface {
        Some(AgentNativeUiSurface::LocalUi) => {
            let request_id = match response.get("requestId") {
                Some(id) => clone_json(id),
                None => JsonValue::Null,
            };
            let ghost id_view = json_view(request_id);
            let result_entries = vec![(copy_string("accepted"), JsonValue::Bool(true))];
            let result = JsonValue::Object(result_entries);
            let entries = vec![
                (copy_string("ok"), JsonValue::Bool(true)),
                (copy_string("requestId"), request_id),
                (copy_string("result"), result),
            ];
            let answer = JsonValue::Object(entries);
            proof {
                if let JsonView::Object(a) = json_view(result) {
                    assert(a[0] == (result_entries@[0].0@, json_view(result_entries@[0].1)));
                    assert(a =~= seq![("accepted"@, JsonView::Bool(true))]);
                }
                if let JsonView::Object(a) = json_view(answer) {
                    assert(a[0] == (entries@[0].0@, json_view(entries@[0].1)));
                    assert(a[1] == (entries@[1].0@, json_view(entries@[1].1)));
                    assert(a[2] == (entries@[2].0@, json_view(entries@[2].1)));
                    assert(a =~= local_ui_answer(id_view)->Object_0);
                }
            }
            *response = answer;
        },
        _ => {},
    }
    surface
}

} // verus!
