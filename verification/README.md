# orbit

The core of the Orbit UI framework, written in Verus: every function in
`src/` carries a contract that Verus proves.

- `component/`: component identities and lifecycle phases; the lifecycle
  manager and the component tree; update scheduling and batching; context
  providers; props validation; state snapshots, their change detection and
  their order-independent hash; memo caches and render statistics;
  composition nodes and slots; higher-order component wrappers.
- `events.rs`, `events/`: event propagation state, hit testing over a
  laid-out tree, handler dispatch, delegation along parent links, and a
  typed event emitter.
- `parser/`, `parser_legacy.rs`: the `.orbit` file format (template,
  script and style sections) and its template tokenizer and parser.
- `style.rs`: CSS rules, selector specificity, scoping and stylesheet
  parsing.
- `state/`: simple state with subscribers, scope-based reactive values,
  and reactive values with change propagation.
- `kit/`, `renderer.rs`, `platform.rs`: the component kit, renderer
  composition and platform adapters.

`app/` holds what cannot be verified: id counters, file reading, floating
point geometry and colour helpers, and copies of the error types with
`Display`.
