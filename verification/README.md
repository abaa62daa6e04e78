# cpp_backend

A GraphQL back end for recipes, the resources their steps run on, and
processes whose steps a gRPC scheduling service places on those resources.

- `src/` is the verified library: the values of the schema (`object`), fresh
  identifiers (`ids`), the rows read and statements written (`store`), what
  the mutations decide (`mutation`), what the queries make of rows (`query`),
  the exchange with the scheduler (`schedule`), a model of the tables
  (`model`) and the laws proved over them (`laws`).
- `app/` is the server: GraphQL resolvers, MySQL access, the gRPC client and
  `main`. Run it with the argument `schema` to print the GraphQL schema.
- `tests/` runs the library on concrete values.
