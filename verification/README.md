# catshi

A Discord bot for play-money prediction markets, blackjack and tipping, with a
small web API for a "catfishing" article game.

`src/` is the verified library: the currency arithmetic, the market maker's
trade and resolution bookkeeping, blackjack, card and id encodings, the
routing of Discord component and modal ids, the text tables and messages the
bot renders, and the portfolio and leaderboard computations. Every function
there carries a `requires`/`ensures` contract checked by Verus; the laws that
tie functions together (round trips of ids and database texts, what a sale does
to a position, how a ranking orders its rows) are stated as public proof
functions next to the code they speak of.

`app/` is the program around it: the command line, the Discord event loop, the
PostgreSQL queries, the HTTP routes and the floating-point price curve of the
market maker. It hands plain values to the library and acts on what comes back.

`tests/` runs the library on concrete values.
