# spring_anim

Spring animations of CSS properties, verified with Verus.

- `src/number_template.rs`: a CSS value split into the numbers in it and the
  template around them, and numbers written back into a template, with the
  laws that tie the two together.
- `src/prop_map.rs`: a map from property names to values.
- `src/use_spring.rs`: the master control of the frame loop, the animated
  properties and the elements they write to.
- `src/use_spring2.rs`: the earlier form of the same, in which a property is
  primed before it starts.
- `src/simple_back.rs`, `src/model.rs`, `src/animated_view.rs`: the entities
  of a small fight, the application's model and messages, and the targets of
  the flipping card.
- `app/`: the browser program: seed, the component state store, the
  `modulator` springs, the float arithmetic of the frames, and the DOM.
