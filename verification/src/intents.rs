//! What the interface asks for, turned into messages and session changes.

use std::collections::VecDeque;
use vstd::prelude::*;
use crate::game::{ClientState, GameView, Session};
use crate::seams::{LobbyTexts, LobbyView, UiIntent};
use crate::wire::ClientMsg;

verus! {

/// Something to do outside for an intent, in order.
#[derive(Debug, PartialEq, Eq)]
pub enum Action {
    /// Remember the player's name.
    PersistName(String),
    /// Send a message to the server.
    Send(ClientMsg),
}

/// An action with its texts taken as characters.
pub enum ActionView {
    PersistName(Seq<char>),
    Hello(Seq<char>),
    JoinLobby(Seq<char>),
    Send(ClientMsg),
}

impl View for Action {
    type V = ActionView;

    open spec fn view(&self) -> ActionView {
        match *self {
            Action::PersistName(name) => ActionView::PersistName(name@),
            Action::Send(ClientMsg::Hello { name }) => ActionView::Hello(name@),
            Action::Send(ClientMsg::JoinLobby { code }) => ActionView::JoinLobby(code@),
            Action::Send(msg) => ActionView::Send(msg),
        }
    }
}

/// The views of a list of actions.
pub open spec fn action_views(s: Seq<Action>) -> Seq<ActionView> {
    Seq::new(s.len(), |i: int| s[i]@)
}

/// The name a player introduces themselves with: trimmed, with a stand-in for a
/// blank one.
pub open spec fn hello_name(name: Seq<char>) -> Seq<char> {
    if crate::text::trimmed(name).len() == 0 {
        "survivor"@
    } else {
        crate::text::trimmed(name)
    }
}

/// The lobby code a player typed: trimmed, in capitals.
pub open spec fn lobby_code(typed: Seq<char>) -> Seq<char> {
    crate::text::uppercased(crate::text::trimmed(typed))
}

/// The latest snapshot says that the match is paused.
pub open spec fn is_paused(v: GameView) -> bool {
    v.latest is Some && v.latest->0.paused
}

/// The session with another status line.
pub open spec fn with_status(v: GameView, status: Seq<char>) -> GameView {
    GameView { lobby: LobbyTexts { status, ..v.lobby }, ..v }
}

/// The session after joining with a code.
pub open spec fn after_join(v: GameView, code: Seq<char>) -> GameView {
    if code.len() == 0 {
        with_status(v, "enter a lobby code"@)
    } else {
        with_status(v, "joining…"@)
    }
}

/// What joining with a code asks to be done: nothing where there is none.
pub open spec fn actions_to_join(v: GameView, code: Seq<char>) -> Seq<ActionView> {
    if code.len() == 0 {
        Seq::empty()
    } else {
        seq![ActionView::Hello(hello_name(v.lobby.name)), ActionView::JoinLobby(code)]
    }
}

/// The lobby code of an ASCII text.
pub open spec fn ascii_lobby_code(typed: Seq<char>) -> Seq<char> {
    crate::text::ascii_capitals(crate::text::trimmed(typed))
}

/// What an intent holds as a typed code.
pub open spec fn typed_code(intent: UiIntent) -> Seq<char> {
    match intent {
        UiIntent::JoinLobby(typed) => typed@,
        _ => Seq::empty(),
    }
}

/// Every code among the intents is typed in ASCII.
pub open spec fn codes_are_ascii(q: Seq<UiIntent>) -> bool {
    forall|i: int| 0 <= i < q.len() ==> crate::text::all_ascii(typed_code(#[trigger] q[i]))
}

/// The session after an intent.
pub open spec fn after_intent(v: GameView, intent: UiIntent) -> GameView {
    after_intent_with(v, intent, lobby_code(typed_code(intent)))
}

/// The session after an intent whose code is typed in ASCII.
pub open spec fn after_ascii_intent(v: GameView, intent: UiIntent) -> GameView {
    after_intent_with(v, intent, ascii_lobby_code(typed_code(intent)))
}

/// The session after an intent, where `code` is the lobby code it comes to.
pub open spec fn after_intent_with(v: GameView, intent: UiIntent, code: Seq<char>) -> GameView {
    match intent {
        UiIntent::SetName(n) => GameView { lobby: LobbyTexts { name: n@, ..v.lobby }, ..v },
        UiIntent::CreateLobby(env) => with_status(v, "creating lobby…"@),
        UiIntent::JoinLobby(typed) => after_join(v, code),
        UiIntent::LeaveLobby => GameView {
            session: Session::Menu,
            lobby: crate::seams::blank_lobby(v.lobby.name),
            ..v
        },
        UiIntent::BackToLobby => GameView { session: Session::InLobby, ..v },
        _ => v,
    }
}

/// What an intent asks to be done.
pub open spec fn actions_for(v: GameView, intent: UiIntent) -> Seq<ActionView> {
    actions_for_with(v, intent, lobby_code(typed_code(intent)))
}

/// What an intent whose code is typed in ASCII asks to be done.
pub open spec fn actions_for_ascii(v: GameView, intent: UiIntent) -> Seq<ActionView> {
    actions_for_with(v, intent, ascii_lobby_code(typed_code(intent)))
}

/// What an intent asks to be done, where `code` is the lobby code it comes to.
pub open spec fn actions_for_with(
    v: GameView,
    intent: UiIntent,
    code: Seq<char>,
) -> Seq<ActionView> {
    match intent {
        UiIntent::SetName(n) => seq![ActionView::PersistName(n@)],
        UiIntent::CreateLobby(env) => seq![
            ActionView::Hello(hello_name(v.lobby.name)),
            ActionView::Send(ClientMsg::CreateLobby { env }),
        ],
        UiIntent::JoinLobby(typed) => actions_to_join(v, code),
        UiIntent::SetEnv(env) => seq![ActionView::Send(ClientMsg::SetEnv { env })],
        UiIntent::StartGame => seq![ActionView::Send(ClientMsg::StartGame)],
        UiIntent::LeaveLobby => seq![ActionView::Send(ClientMsg::LeaveLobby)],
        UiIntent::BackToLobby => Seq::empty(),
        UiIntent::PauseToggle => if is_paused(v) {
            seq![ActionView::Send(ClientMsg::Resume)]
        } else {
            seq![ActionView::Send(ClientMsg::Pause)]
        },
    }
}

/// The session after the first `n` intents.
pub open spec fn after_intents(v: GameView, q: Seq<UiIntent>, n: int) -> GameView
    decreases n,
{
    if n <= 0 {
        v
    } else {
        after_intent(after_intents(v, q, n - 1), q[n - 1])
    }
}

/// The session after the first `n` intents, all codes typed in ASCII.
pub open spec fn after_ascii_intents(v: GameView, q: Seq<UiIntent>, n: int) -> GameView
    decreases n,
{
    if n <= 0 {
        v
    } else {
        after_ascii_intent(after_ascii_intents(v, q, n - 1), q[n - 1])
    }
}

/// What the first `n` intents ask to be done, all codes typed in ASCII.
pub open spec fn actions_for_all_ascii(v: GameView, q: Seq<UiIntent>, n: int) -> Seq<ActionView>
    decreases n,
{
    if n <= 0 {
        Seq::empty()
    } else {
        actions_for_all_ascii(v, q, n - 1) + actions_for_ascii(
            after_ascii_intents(v, q, n - 1),
            q[n - 1],
        )
    }
}

/// What the first `n` intents ask to be done, in order.
pub open spec fn actions_for_all(v: GameView, q: Seq<UiIntent>, n: int) -> Seq<ActionView>
    decreases n,
{
    if n <= 0 {
        Seq::empty()
    } else {
        actions_for_all(v, q, n - 1) + actions_for(after_intents(v, q, n - 1), q[n - 1])
    }
}

/// The introduction a client sends before it creates or joins a lobby.
fn hello(name: &String) -> (r: ClientMsg)
    ensures
        (Action::Send(r))@ == ActionView::Hello(hello_name(name@)),
{
    let trimmed: &str = name.as_str().trim();
    if trimmed.is_empty() {
        ClientMsg::Hello { name: "survivor".to_owned() }
    } else {
        ClientMsg::Hello { name: trimmed.to_owned() }
    }
}

impl ClientState {
    /// Joins with a code that is trimmed and in capitals already.
    pub fn join_with(&mut self, code: String, actions: &mut Vec<Action>)
        ensures
            final(self)@ == after_join(old(self)@, code@),
            action_views(final(actions)@) == action_views(old(actions)@) + actions_to_join(
                old(self)@,
                code@,
            ),
    {
        let ghost v = self@;
        let ghost a0 = actions@;
        let ghost c = code@;
        if code.as_str().is_empty() {
            self.lobby_view.status = "enter a lobby code".to_owned();
        } else {
            actions.push(Action::Send(hello(&self.lobby_view.name)));
            actions.push(Action::Send(ClientMsg::JoinLobby { code }));
            self.lobby_view.status = "joining…".to_owned();
        }
        assert(self@ =~= after_join(v, c));
        assert(action_views(actions@) =~= action_views(a0) + actions_to_join(v, c));
    }

    /// Carries out one intent and appends what it asks for.
    pub fn process_intent(&mut self, intent: UiIntent, actions: &mut Vec<Action>)
        ensures
            final(self)@ == after_intent(old(self)@, intent),
            action_views(final(actions)@) == action_views(old(actions)@) + actions_for(
                old(self)@,
                intent,
            ),
            crate::text::all_ascii(typed_code(intent)) ==> {
                &&& final(self)@ == after_ascii_intent(old(self)@, intent)
                &&& action_views(final(actions)@) == action_views(old(actions)@)
                    + actions_for_ascii(old(self)@, intent)
            },
    {
        let ghost v = self@;
        let ghost whole = intent;
        let ghost a0 = actions@;
        match intent {
            UiIntent::SetName(n) => {
                actions.push(Action::PersistName(n.clone()));
                self.lobby_view.name = n;
            },
            UiIntent::CreateLobby(env) => {
                actions.push(Action::Send(hello(&self.lobby_view.name)));
                actions.push(Action::Send(ClientMsg::CreateLobby { env }));
                self.lobby_view.status = "creating lobby…".to_owned();
            },
            UiIntent::JoinLobby(typed) => {
                let trimmed: &str = typed.as_str().trim();
                proof {
                    if crate::text::all_ascii(typed@) {
                        crate::text::lemma_ascii_trimmed(typed@);
                    }
                }
                self.join_with(trimmed.to_uppercase(), actions);
            },
            UiIntent::SetEnv(env) => {
                actions.push(Action::Send(ClientMsg::SetEnv { env }));
            },
            UiIntent::StartGame => {
                actions.push(Action::Send(ClientMsg::StartGame));
            },
            UiIntent::LeaveLobby => {
                actions.push(Action::Send(ClientMsg::LeaveLobby));
                self.session = Session::Menu;
                let name: String = self.lobby_view.name.clone();
                self.lobby_view = LobbyView::for_name(name);
            },
            UiIntent::BackToLobby => {
                self.session = Session::InLobby;
            },
            UiIntent::PauseToggle => {
                let paused: bool = match &self.latest {
                    Some(s) => s.paused,
                    None => false,
                };
                if paused {
                    actions.push(Action::Send(ClientMsg::Resume));
                } else {
                    actions.push(Action::Send(ClientMsg::Pause));
                }
            },
        }
        assert(self@ =~= after_intent(v, whole));
        assert(action_views(actions@) =~= action_views(a0) + actions_for(v, whole));
    }

    /// Carries out every queued intent, in order.
    pub fn process_intents(&mut self, queue: VecDeque<UiIntent>) -> (actions: Vec<Action>)
        ensures
            final(self)@ == after_intents(old(self)@, queue@, queue@.len() as int),
            action_views(actions@) == actions_for_all(old(self)@, queue@, queue@.len() as int),
            codes_are_ascii(queue@) ==> {
                &&& final(self)@ == after_ascii_intents(old(self)@, queue@, queue@.len() as int)
                &&& action_views(actions@) == actions_for_all_ascii(
                    old(self)@,
                    queue@,
                    queue@.len() as int,
                )
            },
    {
        let ghost v = self@;
        let ghost q = queue@;
        let mut queue = queue;
        let mut actions: Vec<Action> = Vec::new();
        let ghost mut n: int = 0;
        assert(action_views(actions@) =~= Seq::empty());
        assert(q.skip(0) =~= q);
        while queue.len() > 0
            invariant
                0 <= n <= q.len(),
                queue@ == q.skip(n),
                self@ == after_intents(v, q, n),
                action_views(actions@) == actions_for_all(v, q, n),
                codes_are_ascii(q) ==> self@ == after_ascii_intents(v, q, n) && action_views(
                    actions@,
                ) == actions_for_all_ascii(v, q, n),
            decreases queue@.len(),
        {
            let ghost rest = queue@;
            match queue.pop_front() {
                Some(intent) => {
                    assert(intent == q[n]);
                    self.process_intent(intent, &mut actions);
                    proof {
                        n = n + 1;
                        assert(queue@ =~= q.skip(n));
                    }
                },
                None => {},
            }
        }
        actions
    }
}

/// A blank code joins nothing: no message is sent, and the player is told to
/// enter one.
pub proof fn law_blank_code_is_refused(v: GameView, typed: String)
    requires
        lobby_code(typed@).len() == 0,
    ensures
        actions_for(v, UiIntent::JoinLobby(typed)) == Seq::<ActionView>::empty(),
        after_intent(v, UiIntent::JoinLobby(typed)) == with_status(v, "enter a lobby code"@),
{
}

/// A client introduces itself before it creates or joins a lobby, never with a
/// blank name.
pub proof fn law_hello_comes_first(v: GameView, intent: UiIntent)
    requires
        intent is CreateLobby || (intent matches UiIntent::JoinLobby(typed) && lobby_code(
            typed@,
        ).len() > 0),
    ensures
        actions_for(v, intent).len() == 2,
        actions_for(v, intent)[0] == ActionView::Hello(hello_name(v.lobby.name)),
        hello_name(v.lobby.name).len() > 0,
{
    reveal_strlit("survivor");
}

/// Pausing and resuming alternate with what the server last said.
pub proof fn law_pause_toggles(v: GameView)
    ensures
        actions_for(v, UiIntent::PauseToggle) == seq![
            ActionView::Send(
                if is_paused(v) {
                    ClientMsg::Resume
                } else {
                    ClientMsg::Pause
                },
            ),
        ],
        after_intent(v, UiIntent::PauseToggle) == v,
{
}

/// Leaving a lobby forgets everything about it and keeps the player's name.
pub proof fn law_leaving_keeps_only_the_name(v: GameView)
    ensures
        after_intent(v, UiIntent::LeaveLobby).lobby == crate::seams::blank_lobby(v.lobby.name),
        after_intent(v, UiIntent::LeaveLobby).session is Menu,
{
}

/// Hosting introduces us by name and asks for a lobby in the chosen environment.
pub proof fn law_hosting_asks_for_the_environment(v: GameView, env: crate::wire::EnvKind)
    ensures
        ({
            let asked = actions_for(v, UiIntent::CreateLobby(env));
            let after = after_intent(v, UiIntent::CreateLobby(env));
            &&& asked.len() == 2
            &&& asked[0] == ActionView::Hello(hello_name(v.lobby.name))
            &&& asked[1] == ActionView::Send(ClientMsg::CreateLobby { env })
            &&& after == (GameView {
                lobby: LobbyTexts { status: after.lobby.status, ..v.lobby },
                ..v
            })
            &&& after.lobby.status == "creating lobby…"@
        }),
{
}

/// Joining with an ASCII code introduces us by name and asks for the lobby with
/// that code, trimmed and in capitals; nothing is asked where it is blank.
pub proof fn law_joining_asks_for_the_code(v: GameView, typed: String)
    ensures
        ({
            let asked = actions_for_ascii(v, UiIntent::JoinLobby(typed));
            let after = after_ascii_intent(v, UiIntent::JoinLobby(typed));
            let code = crate::text::ascii_capitals(crate::text::trimmed(typed@));
            &&& code.len() == 0 ==> asked.len() == 0
            &&& code.len() > 0 ==> asked.len() == 2 && asked[0] == ActionView::Hello(
                hello_name(v.lobby.name),
            ) && asked[1] == ActionView::JoinLobby(code)
            &&& after == (GameView {
                lobby: LobbyTexts { status: after.lobby.status, ..v.lobby },
                ..v
            })
            &&& code.len() == 0 ==> after.lobby.status == "enter a lobby code"@
            &&& code.len() > 0 ==> after.lobby.status == "joining…"@
        }),
{
}

/// The host's wishes go to the server as they are: the environment that was
/// picked, and the start of the game. The session waits for the answer.
pub proof fn law_host_wishes_go_to_the_server(v: GameView, env: crate::wire::EnvKind)
    ensures
        actions_for(v, UiIntent::SetEnv(env)).len() == 1,
        actions_for(v, UiIntent::SetEnv(env))[0] == ActionView::Send(ClientMsg::SetEnv { env }),
        after_intent(v, UiIntent::SetEnv(env)) == v,
        actions_for(v, UiIntent::StartGame).len() == 1,
        actions_for(v, UiIntent::StartGame)[0] == ActionView::Send(ClientMsg::StartGame),
        after_intent(v, UiIntent::StartGame) == v,
{
}

/// Leaving tells the server and leads back to the menu; going back to the lobby
/// tells nobody, and changes nothing but where we stand.
pub proof fn law_leaving_and_going_back(v: GameView)
    ensures
        actions_for(v, UiIntent::LeaveLobby).len() == 1,
        actions_for(v, UiIntent::LeaveLobby)[0] == ActionView::Send(ClientMsg::LeaveLobby),
        after_intent(v, UiIntent::LeaveLobby) == (GameView {
            session: Session::Menu,
            lobby: after_intent(v, UiIntent::LeaveLobby).lobby,
            ..v
        }),
        after_intent(v, UiIntent::LeaveLobby).lobby.name == v.lobby.name,
        after_intent(v, UiIntent::LeaveLobby).lobby.code.len() == 0,
        after_intent(v, UiIntent::LeaveLobby).lobby.players.len() == 0,
        after_intent(v, UiIntent::LeaveLobby).lobby.invite_url is None,
        after_intent(v, UiIntent::LeaveLobby).lobby.env is None,
        !after_intent(v, UiIntent::LeaveLobby).lobby.is_host,
        actions_for(v, UiIntent::BackToLobby).len() == 0,
        after_intent(v, UiIntent::BackToLobby) == (GameView { session: Session::InLobby, ..v }),
{
}

/// A name is taken as typed, shown at once and remembered; nothing else changes.
pub proof fn law_names_are_taken_as_typed(v: GameView, name: String)
    ensures
        actions_for(v, UiIntent::SetName(name)).len() == 1,
        actions_for(v, UiIntent::SetName(name))[0] == ActionView::PersistName(name@),
        after_intent(v, UiIntent::SetName(name)).lobby.name == name@,
        after_intent(v, UiIntent::SetName(name)) == (GameView {
            lobby: LobbyTexts { name: name@, ..v.lobby },
            ..v
        }),
{
}

/// We introduce ourselves by our trimmed name; a blank one has a stand-in.
pub proof fn law_hello_gives_the_name(name: Seq<char>)
    ensures
        (exists|i: int| 0 <= i < name.len() && !crate::text::is_white(#[trigger] name[i]))
            ==> hello_name(name) == crate::text::trimmed(name),
        (forall|i: int| 0 <= i < name.len() ==> crate::text::is_white(#[trigger] name[i]))
            ==> hello_name(name) == "survivor"@,
{
    crate::text::law_only_white_space_trims_to_nothing(name);
}

/// The pause key asks for the opposite of what the server last said.
pub proof fn law_pausing_asks_for_the_opposite(v: GameView, paused: bool)
    requires
        v.latest is Some ==> v.latest->0.paused == paused,
        v.latest is None ==> !paused,
    ensures
        actions_for(v, UiIntent::PauseToggle).len() == 1,
        paused ==> actions_for(v, UiIntent::PauseToggle)[0] == ActionView::Send(ClientMsg::Resume),
        !paused ==> actions_for(v, UiIntent::PauseToggle)[0] == ActionView::Send(ClientMsg::Pause),
{
}

/// Intents are carried out one after the other: what a queue asks for is what its
/// first part asks for, and then what the rest asks of the session it leaves.
pub proof fn law_queues_are_carried_out_in_order(v: GameView, q: Seq<UiIntent>, n: int, m: int)
    requires
        0 <= n <= m <= q.len(),
    ensures
        actions_for_all(v, q, n).is_prefix_of(actions_for_all(v, q, m)),
        after_intents(v, q, m) == after_intents(after_intents(v, q, n), q.skip(n), m - n),
        actions_for_all(v, q, m) == actions_for_all(v, q, n) + actions_for_all(
            after_intents(v, q, n),
            q.skip(n),
            m - n,
        ),
    decreases m,
{
    if m > n {
        law_queues_are_carried_out_in_order(v, q, n, m - 1);
        assert(q.skip(n)[m - n - 1] == q[m - 1]);
        assert(actions_for_all(v, q, m) =~= actions_for_all(v, q, n) + actions_for_all(
            after_intents(v, q, n),
            q.skip(n),
            m - n,
        ));
    } else {
        assert(actions_for_all(v, q, m) =~= actions_for_all(v, q, n) + actions_for_all(
            after_intents(v, q, n),
            q.skip(n),
            0,
        ));
    }
}

/// Actions read as what they are.
pub proof fn law_actions_read_as_they_are(name: String, code: String, env: crate::wire::EnvKind)
    ensures
        Action::PersistName(name)@ == ActionView::PersistName(name@),
        Action::Send(ClientMsg::Hello { name })@ == ActionView::Hello(name@),
        Action::Send(ClientMsg::JoinLobby { code })@ == ActionView::JoinLobby(code@),
        Action::Send(ClientMsg::CreateLobby { env })@ == ActionView::Send(
            ClientMsg::CreateLobby { env },
        ),
        Action::Send(ClientMsg::Pause)@ == ActionView::Send(ClientMsg::Pause),
        Action::Send(ClientMsg::Resume)@ == ActionView::Send(ClientMsg::Resume),
{
}

} // verus!
