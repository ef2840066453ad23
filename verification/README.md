# hotel_booking

The logic of a NEAR smart contract for booking hotel rooms, verified with Verus.
Owners register rooms; guests book a room for a check-in date by attaching its
price, which goes to the room's owner; owners mark stays and end them.

- `src/strmap.rs`: a string-keyed map kept in insertion order (`StrMap`) and its
  model (`OrdMap`).
- `src/types.rs`: rooms, usage statuses, the records the queries return, and
  their views.
- `src/model.rs`: the abstract contract state (`ContractView`), its invariant, and
  what each operation does to it and reads from it.
- `src/contract.rs`: the contract (`Contract`), each operation proved against the
  model, and a checker for the invariant.
- `src/laws.rs`: properties that span operations (a booking shows for the guest
  and the owner, ending a stay undoes a booking, the available rooms are exactly
  the free ones, ...).
- `app/lib.rs`: the NEAR contract itself (`near_sdk`): it reads the signer and the
  attached deposit, keeps the state in contract storage, answers in JSON, and
  sends the deposit of a booking to the room's owner.
