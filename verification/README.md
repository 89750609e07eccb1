# ocs-pi

The logic behind a chat panel for a local coding agent, docked into a CAD
application: the transcript, the two ways of reaching the agent (a local HTTP
API, and a local child process speaking JSON lines), file references in a
message, and the panel's own state machine, each checked with Verus.

```
src/actions.rs    what the user does to the panel
src/attach.rs     pasted images
src/bodies.rs     request and command bodies, as JSON text
src/files.rs      @path references, the file index, the directory browser
src/http.rs       one blocking request/response, framed
src/ids.rs        content-addressed entry ids
src/json.rs       JSON trees and the text they are read from and written to
src/lang.rs       the panel's two languages and its remembered backend mode
src/laws.rs       what holds of the panel across several events
src/locate.rs     where an executable is looked for
src/model.rs      lifting a type's model to a sequence of it
src/order.rs      a stable sort used by the completion popup
src/panel.rs      the panel's state and how an event changes it
src/paths.rs      path text, the way a host filesystem reads it
src/popup.rs      the `/` and `@` completion popup
src/protocol.rs   the vocabulary the two transports share
src/rpc.rs        the child-process transport
src/sessions.rs   the session list and the session directory
src/tables.rs     pipe tables in a message
src/text.rs       plain string operations
src/view.rs       what the panel shows
src/walk.rs       what a whole walk of a directory tree finds
src/web.rs        the HTTP transport
src/wire.rs       reading the wire's JSON into events and entries
```

`app/` is ordinary Rust around it: the two worker threads with their sockets
and child process, local files, the environment, and the iced widgets. Pasted
images reach it through `Panel::paste_image`, as iced's clipboard hands out text
only.

Each type that crosses into a specification has a `deep_view`: its model, a
plain mathematical value of the same shape. Contracts are stated over models,
so that a `Vec` and what it holds need no separate vocabulary.
