use crate::app::{App, Mode, SearchState, View, MAX_DURATION_MINUTES};
use vstd::prelude::*;
use vstd::view::View as _;

verus! {

/// What a key press asks of the interface.
#[derive(Clone, Copy, Debug, PartialEq, Eq, Structural)]
pub enum Action {
    Quit,
    SetView(View),
    MoveDays(i64),
    MoveMonth(i32),
    MoveTime(i16),
    ScrollHours(i16),
    CycleEvent(i32),
    Today,
    OpenSelected,
    NewEvent,
    EditSelected,
    DeleteSelected,
    OpenCalendars,
    OpenSearch,
    OpenHelp,
    Refresh,
    ClearSelection,
}

/// Work that an action leaves to be done with the backend.
#[derive(Clone, Copy, Debug, PartialEq, Eq, Structural)]
pub enum Command {
    Nothing,
    LoadView(View),
    MoveDays(i64),
    MoveMonth(i32),
    Today,
    Refresh,
}

/// `reduce` takes `before` to `after` with the command `c` for the action `a`.
pub open spec fn reduced(before: App, after: App, a: Action, c: Command) -> bool {
    match a {
        Action::Quit => c == Command::Nothing && after == (App { should_quit: true, ..before }),
        Action::SetView(v) => c == Command::LoadView(v) && after == before,
        Action::MoveDays(d) => c == Command::MoveDays(d) && after == before,
        Action::MoveMonth(m) => c == Command::MoveMonth(m) && after == before,
        Action::MoveTime(m) => c == Command::Nothing && App::time_moved(before, after, m),
        Action::ScrollHours(h) => c == Command::Nothing && App::hours_scrolled(before, after, h),
        Action::CycleEvent(d) => c == Command::Nothing && App::event_cycled(before, after, d),
        Action::Today => c == Command::Today && after == before,
        Action::OpenSelected => if before.view == View::Month && before.selected_event is None {
            c == Command::LoadView(View::Agenda) && after == before
        } else {
            c == Command::Nothing && App::selection_opened(before, after)
        },
        Action::NewEvent => c == Command::Nothing && App::new_event_started(before, after),
        Action::EditSelected => c == Command::Nothing && App::edit_started(before, after),
        Action::DeleteSelected => c == Command::Nothing && App::delete_confirmation_started(before, after),
        Action::OpenCalendars => c == Command::Nothing && App::picker_opened(before, after),
        Action::OpenSearch => c == Command::Nothing && after == (App {
            search: after.search,
            mode: Mode::Search,
            ..before
        }) && after.search.query@.len() == 0 && after.search.results@.len() == 0
            && after.search.selected == 0,
        Action::OpenHelp => c == Command::Nothing && after == (App { mode: Mode::Help, ..before }),
        Action::Refresh => c == Command::Refresh && after == before,
        Action::ClearSelection => c == Command::Nothing && after == (App { selected_event: None, ..before }),
    }
}

/// Applies the part of an action that needs no backend and returns the rest as a command:
/// view changes, day and month moves, going to today and reloading are commands; the others
/// change the state here. Opening the selection in the month view with nothing selected
/// switches to the agenda instead.
pub fn reduce(app: &mut App, action: Action) -> (r: Command)
    requires
        old(app).wf(),
        action == Action::NewEvent ==> old(app).config.default_event_duration_minutes
            <= MAX_DURATION_MINUTES,
    ensures
        final(app).wf(),
        reduced(*old(app), *final(app), action, r),
{
    match action {
        Action::Quit => app.should_quit = true,
        Action::SetView(view) => return Command::LoadView(view),
        Action::MoveDays(days) => return Command::MoveDays(days),
        Action::MoveMonth(months) => return Command::MoveMonth(months),
        Action::MoveTime(minutes) => app.move_time(minutes),
        Action::ScrollHours(hours) => app.scroll_hours(hours),
        Action::CycleEvent(delta) => app.cycle_event(delta),
        Action::Today => return Command::Today,
        Action::OpenSelected => {
            if app.view == View::Month && app.selected_event.is_none() {
                return Command::LoadView(View::Agenda);
            }
            app.open_selected();
        },
        Action::NewEvent => app.start_new_event(),
        Action::EditSelected => app.start_edit_event(),
        Action::DeleteSelected => app.start_delete_confirmation(),
        Action::OpenCalendars => app.open_calendar_picker(),
        Action::OpenSearch => {
            app.search = SearchState::default();
            app.mode = Mode::Search;
        },
        Action::OpenHelp => app.mode = Mode::Help,
        Action::Refresh => return Command::Refresh,
        Action::ClearSelection => app.selected_event = None,
    }
    Command::Nothing
}

} // verus!
