//! The demonstration window layout: a main window with three coloured
//! panels, two buttons and an edit field, whose close handler destroys the
//! window and whose destroy handler exits the event loop.

use vstd::prelude::*;
use crate::error::Error;
use crate::world::{Action, World};
use crate::{ChildType, Color, EditOptions};

verus! {

/// Build the demonstration layout in the given world and return the main
/// window.  Succeeds whenever the runtime model has no failure armed and
/// enough identities left; on success the main window is live, owns its
/// six children in creation order, and carries the close-destroys-window
/// and destroy-exits-loop scripts.
pub fn make(w: &mut World) -> (r: Result<usize, Error>)
    requires
        old(w).wf(),
    ensures
        final(w).wf(),
        old(w).armed_failure() is None && old(w).next_handle() < u64::MAX - 7 ==> r is Ok,
        r is Ok ==> ({
            let m = r->Ok_0;
            &&& m < final(w).n()
            &&& final(w).live(m as int)
            &&& final(w).children(m as int).len() == 6
            &&& final(w).text_of(m as int) == "Hello, world!"@
            &&& final(w).background_of(m as int) == Some(Color(128, 128, 128, 0))
            &&& final(w).bounds_of(m as int) == (0i32, 0i32, 500i32, 300i32)
            &&& final(w).close_slot_filled(m as int)
            &&& final(w).close_script(m as int) == seq![Action::Destroy(m)]
            &&& final(w).destroy_slot_filled(m as int)
            &&& final(w).destroy_script(m as int) == seq![Action::ExitLoop]
            &&& forall|k: int|
                0 <= k < 6 ==> final(w).live(#[trigger] final(w).children(m as int)[k] as int)
        }),
{
    let m = match w.new_main() {
        Ok(m) => m,
        Err(e) => {
            return Err(e);
        },
    };
    if let Err(e) = w.bounds(m, None, Some((500, 300))) {
        return Err(e);
    }
    if let Err(e) = w.text(m, "Hello, world!") {
        return Err(e);
    }
    if let Err(e) = w.background(m, Color(128, 128, 128, 0)) {
        return Err(e);
    }
    proof {
        assert(w.live(m as int));
        assert(w.armed_failure() is None);
        assert(w.text_of(m as int) == "Hello, world!"@ && w.background_of(m as int) == Some(
            Color(128, 128, 128, 0),
        ) && w.bounds_of(m as int) == (0i32, 0i32, 500i32, 300i32));
        assert((m as int) < w.n());
        assert(w.next_handle() == old(w).next_handle() + 1);
        assert(w.children(m as int).len() == 0);
    }

    let color1 = match w.create_child(m, &ChildType::Custom) {
        Ok(c) => c,
        Err(e) => {
            return Err(e);
        },
    };
    if let Err(e) = w.bounds(color1, Some((10, 10)), Some((50, 50))) {
        return Err(e);
    }
    if let Err(e) = w.background(color1, Color(255, 0, 0, 255)) {
        return Err(e);
    }
    proof {
        assert(w.live(m as int) && w.live(color1 as int));
        assert(w.armed_failure() is None);
        assert(w.text_of(m as int) == "Hello, world!"@ && w.background_of(m as int) == Some(
            Color(128, 128, 128, 0),
        ) && w.bounds_of(m as int) == (0i32, 0i32, 500i32, 300i32));
        assert((m as int) < w.n());
        assert(w.next_handle() == old(w).next_handle() + 2);
        assert(w.children(m as int).len() == 1 && w.children(m as int)[0] == color1);
    }

    let color2 = match w.create_child(m, &ChildType::Custom) {
        Ok(c) => c,
        Err(e) => {
            return Err(e);
        },
    };
    if let Err(e) = w.bounds(color2, Some((70, 10)), Some((50, 50))) {
        return Err(e);
    }
    if let Err(e) = w.background(color2, Color(0, 255, 0, 255)) {
        return Err(e);
    }
    proof {
        assert(w.live(m as int) && w.live(color1 as int) && w.live(color2 as int));
        assert(w.armed_failure() is None);
        assert(w.text_of(m as int) == "Hello, world!"@ && w.background_of(m as int) == Some(
            Color(128, 128, 128, 0),
        ) && w.bounds_of(m as int) == (0i32, 0i32, 500i32, 300i32));
        assert((m as int) < w.n());
        assert(w.next_handle() == old(w).next_handle() + 3);
        assert(w.children(m as int).len() == 2 && w.children(m as int)[0] == color1 && w.children(
            m as int,
        )[1] == color2);
    }

    let color3 = match w.create_child(m, &ChildType::Custom) {
        Ok(c) => c,
        Err(e) => {
            return Err(e);
        },
    };
    if let Err(e) = w.bounds(color3, Some((130, 10)), Some((50, 50))) {
        return Err(e);
    }
    if let Err(e) = w.background(color3, Color(0, 0, 255, 255)) {
        return Err(e);
    }
    proof {
        assert(w.live(m as int) && w.live(color1 as int) && w.live(color2 as int) && w.live(
            color3 as int,
        ));
        assert(w.armed_failure() is None);
        assert(w.text_of(m as int) == "Hello, world!"@ && w.background_of(m as int) == Some(
            Color(128, 128, 128, 0),
        ) && w.bounds_of(m as int) == (0i32, 0i32, 500i32, 300i32));
        assert((m as int) < w.n());
        assert(w.next_handle() == old(w).next_handle() + 4);
        assert(w.children(m as int).len() == 3 && w.children(m as int)[0] == color1 && w.children(
            m as int,
        )[1] == color2 && w.children(m as int)[2] == color3);
    }

    let button1 = match w.create_child(m, &ChildType::Button) {
        Ok(c) => c,
        Err(e) => {
            return Err(e);
        },
    };
    if let Err(e) = w.bounds(button1, Some((100, 50)), Some((100, 40))) {
        return Err(e);
    }
    if let Err(e) = w.text(button1, "A &Button 1") {
        return Err(e);
    }
    proof {
        assert(w.live(m as int) && w.live(color1 as int) && w.live(color2 as int) && w.live(
            color3 as int,
        ) && w.live(button1 as int));
        assert(w.armed_failure() is None);
        assert(w.text_of(m as int) == "Hello, world!"@ && w.background_of(m as int) == Some(
            Color(128, 128, 128, 0),
        ) && w.bounds_of(m as int) == (0i32, 0i32, 500i32, 300i32));
        assert((m as int) < w.n());
        assert(w.next_handle() == old(w).next_handle() + 5);
        assert(w.children(m as int).len() == 4 && w.children(m as int)[0] == color1 && w.children(
            m as int,
        )[1] == color2 && w.children(m as int)[2] == color3 && w.children(m as int)[3] == button1);
    }

    let button2 = match w.create_child(m, &ChildType::Button) {
        Ok(c) => c,
        Err(e) => {
            return Err(e);
        },
    };
    if let Err(e) = w.bounds(button2, Some((100, 100)), Some((100, 40))) {
        return Err(e);
    }
    if let Err(e) = w.text(button2, "A &Button 2") {
        return Err(e);
    }
    proof {
        assert(w.live(m as int) && w.live(color1 as int) && w.live(color2 as int) && w.live(
            color3 as int,
        ) && w.live(button1 as int) && w.live(button2 as int));
        assert(w.armed_failure() is None);
        assert(w.text_of(m as int) == "Hello, world!"@ && w.background_of(m as int) == Some(
            Color(128, 128, 128, 0),
        ) && w.bounds_of(m as int) == (0i32, 0i32, 500i32, 300i32));
        assert((m as int) < w.n());
        assert(w.next_handle() == old(w).next_handle() + 6);
        assert(w.children(m as int).len() == 5 && w.children(m as int)[0] == color1 && w.children(
            m as int,
        )[1] == color2 && w.children(m as int)[2] == color3 && w.children(m as int)[3] == button1
            && w.children(m as int)[4] == button2);
    }

    let edit = match w.create_child(
        m,
        &ChildType::Edit(
            EditOptions {
                border: true,
                hscroll: false,
                vscroll: true,
                auto_hscroll: false,
                auto_vscroll: true,
                center: false,
                lower_case: false,
                multiline: true,
                password: false,
                readonly: false,
                uppercase: false,
                want_return: true,
            },
        ),
    ) {
        Ok(c) => c,
        Err(e) => {
            return Err(e);
        },
    };
    if let Err(e) = w.bounds(edit, Some((210, 100)), Some((200, 100))) {
        return Err(e);
    }
    if let Err(e) = w.text(edit, "Here is some text and some more and more\r\nAnother line") {
        return Err(e);
    }
    proof {
        assert(w.live(m as int) && w.live(color1 as int) && w.live(color2 as int) && w.live(
            color3 as int,
        ) && w.live(button1 as int) && w.live(button2 as int) && w.live(edit as int));
        assert(w.armed_failure() is None);
        assert(w.text_of(m as int) == "Hello, world!"@ && w.background_of(m as int) == Some(
            Color(128, 128, 128, 0),
        ) && w.bounds_of(m as int) == (0i32, 0i32, 500i32, 300i32));
        assert((m as int) < w.n());
        assert(w.children(m as int).len() == 6 && w.children(m as int)[0] == color1 && w.children(
            m as int,
        )[1] == color2 && w.children(m as int)[2] == color3 && w.children(m as int)[3] == button1
            && w.children(m as int)[4] == button2 && w.children(m as int)[5] == edit);
    }

    let mut close_script: Vec<Action> = Vec::new();
    close_script.push(Action::Destroy(m));
    proof {
        assert(close_script@ =~= seq![Action::Destroy(m)]);
    }
    if let Err(e) = w.on_close(m, close_script) {
        return Err(e);
    }
    let mut destroy_script: Vec<Action> = Vec::new();
    destroy_script.push(Action::ExitLoop);
    proof {
        assert(destroy_script@ =~= seq![Action::ExitLoop]);
        assert(w.live(m as int));
    }
    if let Err(e) = w.on_destroy(m, destroy_script) {
        return Err(e);
    }
    proof {
        assert(w.live(m as int) && w.live(color1 as int) && w.live(color2 as int) && w.live(
            color3 as int,
        ) && w.live(button1 as int) && w.live(button2 as int) && w.live(edit as int));
        assert(w.text_of(m as int) == "Hello, world!"@ && w.background_of(m as int) == Some(
            Color(128, 128, 128, 0),
        ) && w.bounds_of(m as int) == (0i32, 0i32, 500i32, 300i32));
        assert((m as int) < w.n());
        assert(w.close_slot_filled(m as int) && w.close_script(m as int) =~= seq![
            Action::Destroy(m),
        ]);
        assert(w.destroy_slot_filled(m as int) && w.destroy_script(m as int) =~= seq![
            Action::ExitLoop,
        ]);
        assert(w.children(m as int).len() == 6 && w.children(m as int)[0] == color1 && w.children(
            m as int,
        )[1] == color2 && w.children(m as int)[2] == color3 && w.children(m as int)[3] == button1
            && w.children(m as int)[4] == button2 && w.children(m as int)[5] == edit);
        assert forall|k: int| 0 <= k < 6 implies w.live(
            #[trigger] w.children(m as int)[k] as int,
        ) by {
            if k == 0 {
                assert(w.live(color1 as int));
            } else if k == 1 {
                assert(w.live(color2 as int));
            } else if k == 2 {
                assert(w.live(color3 as int));
            } else if k == 3 {
                assert(w.live(button1 as int));
            } else if k == 4 {
                assert(w.live(button2 as int));
            } else {
                assert(w.live(edit as int));
            }
        }
    }
    Ok(m)
}

/// A window system user generic over the system it drives.
pub fn _make2<WS2: Clone>(_ws: WS2) {
}

} // verus!
