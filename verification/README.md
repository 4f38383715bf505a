# belote

Moteur de regles de la belote classique, verifie avec Verus, et le serveur de
jeu qui l'entoure.

- `src/` : la bibliotheque verifiee.
  - `card`, `scoring`, `state`, `action`, `event`, `view` : cartes, bareme,
    etat d'une donne, actions, evenements et vues par siege.
  - `rules` : coups legaux, application des actions, reduction des
    evenements, decompte, distribution.
  - `bot` : le joueur automatique.
  - `deal_laws`, `turns` : l'invariant d'une donne et sa preservation par
    chaque action acceptee (32 cartes, 152 + 10 points, ordre de jeu, fin de
    donne).
  - `sim`, `harness` : une donne jouee par quatre bots, et une serie de
    donnes verifiees.
  - `table` : les decisions d'une table de jeu (sieges, connexions, score du
    match, minuterie).
  - `accounts`, `auth`, `config`, `error`, `lobby`, `proto`, `tickets` : comptes,
    mots de passe et jetons, configuration, erreurs HTTP, codes de salon,
    protocole, tickets de connexion.
- `tests/` : les tests.
- `app/` : le serveur HTTP/WebSocket (axum, sqlx, tokio) et le harnais
  `simulate`, sans logique de jeu propre.
