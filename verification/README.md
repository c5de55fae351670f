# pinnacle

The layout and window-shell decisions of a tiling Wayland compositor, written in
Verus: what is sent to a layout client, which of its answers are accepted, how the
windows of an output are arranged, and what the xdg-shell requests of clients lead to.

- `src/` is the library. Its functions take plain values and return the steps that
  the compositor is to perform, in order.
  - `layout::request` numbers layout requests and keeps track of the open ones.
  - `layout::answer` takes up the answers of layout clients.
  - `layout::arrange` plans the arrangement of an output, and `layout::laws` states
    what holds of every such plan. `layout::repeat` is about
    performing two plans in turn.
  - `layout::order` is about the order of the windows.
  - `handlers::xdg_shell` and `handlers::popup_grab` are about client requests.
- `app/` runs the library on a compositor.
- `tests/` runs the library on concrete values.
